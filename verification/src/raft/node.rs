use std::collections::{HashMap, HashSet};

use crate::clock;
use crate::clock::{millis_between, Clock, Moment};
use crate::config::{NodeConfig, PeerConfig};
use crate::lemmas;
use crate::proto;
use crate::proto::{
    AppendEntriesRequest, AppendEntriesResponse, AppendMessage, InstallSnapshotRequest,
    InstallSnapshotResponse, LogEntry as ProtoLogEntry, SnapshotMessage, TimeoutNowRequest,
    TimeoutNowResponse, VoteRequest, VoteResponse,
};
use crate::raft::rpc;
use crate::raft::rpc::{
    handle_append_entries, handle_install_snapshot, handle_request_vote, log_entry_to_proto,
    snapshot_to_proto,
};
use crate::raft::state;
use crate::raft::state::{
    Command, EntryView, LogEntry, RaftRole, RaftState, Snapshot, StateView,
};
use crate::raft::storage::PersistedState;
use crate::text;
use crate::text::{debug_opt_u64, decimal_text};
use vstd::prelude::*;
use vstd::string::*;

verus! {

broadcast use vstd::std_specs::hash::group_hash_axioms;

/// Requests to the event loop of a Raft node.
#[derive(Debug)]
pub enum RaftMessage {
    /// Append a command to the log.
    AppendCommand { command: Command },
    /// The leader gave a sign of life.
    HeartbeatReceived,
    /// Start an election.
    TriggerElection,
    /// Hand leadership to a node; the node is picked when none is named.
    TransferLeadership { target_id: Option<u64> },
}

/// Milliseconds after which a silent peer counts as dead.
pub const PEER_TIMEOUT_MS: u64 = 3000;

/// The consensus part of a node.
#[derive(Debug)]
pub struct RaftNode {
    pub id: u64,
    pub state: RaftState,
    pub config: NodeConfig,
    /// Peers with a connection.
    pub peers: HashSet<u64>,
    /// Peers cut off on purpose, as in a network partition.
    pub disconnected_peers: HashSet<u64>,
    /// Last sign of life of a leader.
    pub last_heartbeat: Moment,
    /// Commit index last announced to those who wait for commits.
    pub commit_notified: u64,
    /// Last successful answer of each peer.
    pub peer_last_seen: HashMap<u64, Moment>,
    /// Snapshot that the job queue has yet to be rebuilt from.
    pub pending_snapshot: Option<Snapshot>,
    pub clock: Clock,
}

// ---------------------------------------------------------------------------
// Replication
// ---------------------------------------------------------------------------

/// `v` is the least value of the map.
pub open spec fn is_least_value(m: Map<u64, u64>, v: u64) -> bool {
    &&& exists|k: u64| #[trigger] m.contains_key(k) && m[k] == v
    &&& forall|k: u64| #[trigger] m.contains_key(k) ==> v <= m[k]
}

/// The least index that a peer is to receive next; 1 without peers.
pub open spec fn least_next(next: Map<u64, u64>) -> u64 {
    if exists|k: u64| #[trigger] next.contains_key(k) {
        choose|v: u64| is_least_value(next, v)
    } else {
        1
    }
}

/// The number before `n`, 0 for 0.
pub open spec fn before(n: u64) -> u64 {
    if n > 0 {
        (n - 1) as u64
    } else {
        0
    }
}

/// The index that the peer is to receive next.
pub open spec fn peer_next(s: StateView, peer: u64) -> u64 {
    if s.next_index.contains_key(peer) {
        s.next_index[peer]
    } else {
        1
    }
}

/// The part of the log that some peer may need, with the entry before it.
pub open spec fn replication_window(s: StateView) -> Seq<EntryView> {
    let wanted = before(least_next(s.next_index));
    if wanted > s.log_offset {
        s.entries_from(wanted as int)
    } else {
        s.entries_from(s.log_offset + 1)
    }
}

/// The term of the first entry with this index, 0 when there is none.
pub open spec fn term_of_index(entries: Seq<EntryView>, index: u64) -> u64
    decreases entries.len(),
{
    if entries.len() == 0 {
        0
    } else if entries[0].index == index {
        entries[0].term
    } else {
        term_of_index(entries.skip(1), index)
    }
}

/// The term that a leader names for the entry before those it sends.
pub open spec fn prev_term(s: StateView, prev: u64) -> u64 {
    if prev == 0 {
        0
    } else if prev == s.log_offset {
        match s.snapshot {
            Some(snapshot) => snapshot.last_included_term,
            None => 0,
        }
    } else {
        term_of_index(replication_window(s), prev)
    }
}

/// The peer needs entries that are compacted, and there is a snapshot to send.
pub open spec fn needs_snapshot(s: StateView, peer: u64) -> bool {
    peer_next(s, peer) <= s.log_offset && s.snapshot is Some
}

/// The entries that a leader sends to the peer.
pub open spec fn entries_for(s: StateView, peer: u64) -> Seq<EntryView> {
    replication_window(s).filter(|e: EntryView| e.index >= peer_next(s, peer))
}

/// The request by which a leader replicates its log to the peer.
pub open spec fn append_request(s: StateView, id: u64, peer: u64) -> AppendMessage {
    let prev = before(peer_next(s, peer));
    AppendMessage {
        term: s.current_term,
        leader_id: id,
        prev_log_index: prev,
        prev_log_term: prev_term(s, prev),
        entries: entries_for(s, peer).map_values(|e: EntryView| rpc::encode_entry(e)),
        leader_commit: s.commit_index,
    }
}

/// What a leader sends to a peer.
#[derive(Debug)]
pub enum Replication {
    /// Entries, or none as a heartbeat.
    Append(AppendEntriesRequest),
    /// The snapshot, to a peer that needs compacted entries.
    Snapshot(InstallSnapshotRequest),
}

/// What a leader sends to a peer, as the model sees it.
#[verifier::ext_equal]
pub enum ReplicationMessage {
    Append(AppendMessage),
    Snapshot(SnapshotMessage),
}

impl View for Replication {
    type V = ReplicationMessage;

    open spec fn view(&self) -> ReplicationMessage {
        match *self {
            Replication::Append(req) => ReplicationMessage::Append(req@),
            Replication::Snapshot(req) => ReplicationMessage::Snapshot(req@),
        }
    }
}

/// What a leader sends to the peer.
pub open spec fn replication_for(s: StateView, id: u64, peer: u64) -> ReplicationMessage {
    if needs_snapshot(s, peer) {
        ReplicationMessage::Snapshot(rpc::encode_snapshot(s.snapshot->0, s.current_term, id))
    } else {
        ReplicationMessage::Append(append_request(s, id, peer))
    }
}

/// The moments in log and snapshot are moments of the calendar.
pub open spec fn moments_wf(s: StateView) -> bool {
    &&& rpc::entries_wf(s.log)
    &&& s.snapshot is Some ==> rpc::snapshot_wf(s.snapshot->0)
}

/// The keys of a map, in no particular order.
fn map_keys<V>(m: &HashMap<u64, V>) -> (r: Vec<u64>)
    ensures
        r@.no_duplicates(),
        r@.to_set() == m@.dom(),
{
    let mut keys: Vec<u64> = Vec::new();
    let ghost all = vstd::std_specs::iter::IteratorSpec::remaining(&m.keys());
    for key in it: m.keys()
        invariant
            it.seq() == all,
            keys@ == all.unref().take(it.index()),
    {
        keys.push(*key);
    }
    assert(all.unref().take(all.len() as int) =~= all.unref());
    keys
}

/// The elements of a set, in no particular order.
fn set_elements(s: &HashSet<u64>) -> (r: Vec<u64>)
    ensures
        r@.no_duplicates(),
        r@.to_set() == s@,
{
    let mut elements: Vec<u64> = Vec::new();
    let ghost all = vstd::std_specs::iter::IteratorSpec::remaining(&s.iter());
    for element in it: s.iter()
        invariant
            it.seq() == all,
            elements@ == all.unref().take(it.index()),
    {
        elements.push(*element);
    }
    assert(all.unref().take(all.len() as int) =~= all.unref());
    elements
}

/// The least index that a peer is to receive next; 1 without peers.
fn find_least_next(next: &HashMap<u64, u64>) -> (r: u64)
    ensures
        r == least_next(next@),
{
    let keys = map_keys(next);
    if keys.len() == 0 {
        assert forall|k: u64| !#[trigger] next@.contains_key(k) by {
            assert(!keys@.to_set().contains(k));
        }
        return 1;
    }
    assert(keys@.to_set().contains(keys@[0]));
    let mut least: u64 = u64::MAX;
    for i in 0..keys.len()
        invariant
            keys@.to_set() == next@.dom(),
            forall|j: int| 0 <= j < i ==> least <= next@[#[trigger] keys@[j]],
            i > 0 ==> exists|j: int| 0 <= j < i && next@[#[trigger] keys@[j]] == least,
            i == 0 ==> least == u64::MAX,
    {
        assert(keys@.to_set().contains(keys@[i as int]));
        match next.get(&keys[i]) {
            Some(value) => {
                if *value <= least {
                    least = *value;
                    assert(next@[keys@[i as int]] == least);
                }
            },
            None => {},
        }
    }
    proof {
        let j = choose|j: int| 0 <= j < keys@.len() && next@[#[trigger] keys@[j]] == least;
        assert(keys@.to_set().contains(keys@[j]));
        assert(next@.contains_key(keys@[j]) && next@[keys@[j]] == least);
        assert forall|k: u64| #[trigger] next@.contains_key(k) implies least <= next@[k] by {
            assert(keys@.to_set().contains(k));
            let m = choose|m: int| 0 <= m < keys@.len() && keys@[m] == k;
            assert(least <= next@[keys@[m]]);
        }
        assert(is_least_value(next@, least));
        let v = choose|v: u64| is_least_value(next@, v);
        assert(is_least_value(next@, v));
    }
    least
}

/// The term of the first entry with this index, 0 when there is none.
fn find_term(entries: &Vec<LogEntry>, index: u64) -> (r: u64)
    ensures
        r == term_of_index(state::entries_view(entries@), index),
{
    let ghost all = state::entries_view(entries@);
    assert(all.skip(0) =~= all);
    for i in 0..entries.len()
        invariant
            all == state::entries_view(entries@),
            term_of_index(all.skip(i as int), index) == term_of_index(all, index),
    {
        assert(all.skip(i as int)[0] == entries@[i as int]@);
        assert(all.skip(i as int).skip(1) =~= all.skip(i + 1));
        if entries[i].index == index {
            return entries[i].term;
        }
    }
    0
}

/// The entries from an index on, on the wire.
fn messages_from(entries: &Vec<LogEntry>, first: u64) -> (r: Vec<ProtoLogEntry>)
    requires
        rpc::entries_wf(state::entries_view(entries@)),
    ensures
        proto::entries_message(r@) == state::entries_view(entries@).filter(
            |e: EntryView| e.index >= first,
        ).map_values(|e: EntryView| rpc::encode_entry(e)),
        rpc::decode_entries(proto::entries_message(r@)) == state::entries_view(entries@).filter(
            |e: EntryView| e.index >= first,
        ).map_values(|e: EntryView| rpc::entry_to_ms(e)),
{
    let ghost all = state::entries_view(entries@);
    let ghost which = |e: EntryView| e.index >= first;
    let ghost encode = |e: EntryView| rpc::encode_entry(e);
    let ghost cut = |e: EntryView| rpc::entry_to_ms(e);
    let mut messages: Vec<ProtoLogEntry> = Vec::new();
    for i in 0..entries.len()
        invariant
            all == state::entries_view(entries@),
            rpc::entries_wf(all),
            which == (|e: EntryView| e.index >= first),
            encode == (|e: EntryView| rpc::encode_entry(e)),
            cut == (|e: EntryView| rpc::entry_to_ms(e)),
            proto::entries_message(messages@) =~= all.take(i as int).filter(which).map_values(encode),
            rpc::decode_entries(proto::entries_message(messages@)) =~= all.take(i as int).filter(
                which,
            ).map_values(cut),
    {
        let ghost before = proto::entries_message(messages@);
        let ghost picked = all.take(i as int).filter(which);
        assert(all[i as int] == entries@[i as int]@);
        proof {
            lemmas::filter_step(all, i as int, which);
        }
        if entries[i].index >= first {
            let message = log_entry_to_proto(&entries[i]);
            messages.push(message);
            proof {
                let after = proto::entries_message(messages@);
                assert(after =~= before.push(message@));
                assert(after.drop_last() =~= before);
                let e = all[i as int];
                assert(picked.push(e).map_values(encode) =~= picked.map_values(encode).push(encode(e)));
                assert(picked.push(e).map_values(cut) =~= picked.map_values(cut).push(cut(e)));
            }
        }
    }
    assert(all.take(all.len() as int) =~= all);
    messages
}

/// A recipient reads in the message what the leader has: the entries it is to receive, or the
/// snapshot, to the millisecond.
pub open spec fn carries(message: ReplicationMessage, s: StateView, peer: u64) -> bool {
    match message {
        ReplicationMessage::Append(req) => rpc::decode_entries(req.entries) == entries_for(
            s,
            peer,
        ).map_values(|e: EntryView| rpc::entry_to_ms(e)),
        ReplicationMessage::Snapshot(req) => rpc::decode_snapshot(req) == rpc::snapshot_to_ms(
            s.snapshot->0,
        ),
    }
}

/// The state of a node that starts with what an earlier run stored.
pub open spec fn restored_state(p: PersistedState) -> StateView {
    StateView {
        current_term: p.current_term,
        voted_for: p.voted_for,
        log: state::entries_view(p.log@),
        log_offset: p.log_offset,
        snapshot: state::opt_snapshot(p.snapshot),
        commit_index: p.log_offset,
        last_applied: p.log_offset,
        ..state::initial_state()
    }
}

/// Each connected peer is among the recipients of a round of replication, once, with what is
/// meant for it.
pub open spec fn replication_round(
    sent: Seq<(u64, Replication)>,
    s: StateView,
    id: u64,
    peers: Set<u64>,
) -> bool {
    if s.role is Leader {
        &&& forall|i: int|
            0 <= i < sent.len() ==> peers.contains((#[trigger] sent[i]).0) && sent[i].1@
                == replication_for(s, id, sent[i].0) && carries(sent[i].1@, s, sent[i].0)
        &&& forall|i: int, j: int|
            0 <= i < j < sent.len() ==> (#[trigger] sent[i]).0 != (#[trigger] sent[j]).0
        &&& forall|peer: u64| #[trigger]
            peers.contains(peer) ==> exists|i: int|
                0 <= i < sent.len() && (#[trigger] sent[i]).0 == peer
    } else {
        sent.len() == 0
    }
}

impl RaftNode {
    /// A node that has just started, with these settings.
    pub fn new(config: NodeConfig) -> (r: Self)
        ensures
            r.id == config.node_id,
            r.state@ == state::initial_state(),
            r.config == config,
            r.peers@ == Set::<u64>::empty(),
            r.disconnected_peers@ == Set::<u64>::empty(),
            r.commit_notified == 0,
            r.peer_last_seen@ == Map::<u64, Moment>::empty(),
            r.pending_snapshot is None,
            r.clock.reads(r.last_heartbeat),
    {
        let clock = Clock::start();
        let now = clock.now();
        RaftNode {
            id: config.node_id,
            state: RaftState::new(),
            config,
            peers: HashSet::new(),
            disconnected_peers: HashSet::new(),
            last_heartbeat: now,
            commit_notified: 0,
            peer_last_seen: HashMap::new(),
            pending_snapshot: None,
            clock,
        }
    }

    /// A node that starts with these settings and with the state of an earlier run, if any. What
    /// the snapshot stands for counts as committed and applied, and the job queue is to be
    /// rebuilt from it.
    pub fn new_with_storage(config: NodeConfig, persisted: Option<PersistedState>) -> (r: Self)
        ensures
            r.id == config.node_id,
            r.state@ == (match persisted {
                Some(p) => restored_state(p),
                None => state::initial_state(),
            }),
            r.config == config,
            r.peers@ == Set::<u64>::empty(),
            r.disconnected_peers@ == Set::<u64>::empty(),
            r.commit_notified == r.state@.commit_index,
            r.peer_last_seen@ == Map::<u64, Moment>::empty(),
            state::opt_snapshot(r.pending_snapshot) == r.state@.snapshot,
            r.clock.reads(r.last_heartbeat),
    {
        let mut node = RaftNode::new(config);
        if let Some(p) = persisted {
            let pending = match &p.snapshot {
                Some(snapshot) => Some(snapshot.clone()),
                None => None,
            };
            node.pending_snapshot = pending;
            node.commit_notified = p.log_offset;
            node.state.current_term = p.current_term;
            node.state.voted_for = p.voted_for;
            node.state.log = p.log;
            node.state.log_offset = p.log_offset;
            node.state.snapshot = p.snapshot;
            node.state.commit_index = p.log_offset;
            node.state.last_applied = p.log_offset;
        }
        node
    }

    /// What the leader is to send to each connected peer, in no particular order; nothing on any
    /// other node.
    pub fn send_heartbeats(&self) -> (r: Vec<(u64, Replication)>)
        requires
            moments_wf(self.state@),
            self.state@.log_offset < u64::MAX,
        ensures
            replication_round(r@, self.state@, self.id, self.peers@),
    {
        let mut sent: Vec<(u64, Replication)> = Vec::new();
        if self.state.role != RaftRole::Leader {
            return sent;
        }
        let min_next_index: u64 = find_least_next(&self.state.next_index);
        let wanted: u64 = min_next_index.saturating_sub(1);
        let entries_start: u64 = if wanted > self.state.log_offset {
            wanted
        } else {
            self.state.log_offset + 1
        };
        let log_entries = self.state.get_entries_from(entries_start);
        proof {
            window_wf(self.state@);
        }
        let peers = set_elements(&self.peers);
        for i in 0..peers.len()
            invariant
                self.state@.role is Leader,
                moments_wf(self.state@),
                state::entries_view(log_entries@) == replication_window(self.state@),
                rpc::entries_wf(state::entries_view(log_entries@)),
                peers@.no_duplicates(),
                peers@.to_set() == self.peers@,
                sent@.len() == i,
                forall|k: int|
                    0 <= k < i ==> (#[trigger] sent@[k]).0 == peers@[k] && sent@[k].1@
                        == replication_for(self.state@, self.id, peers@[k]) && carries(
                        sent@[k].1@,
                        self.state@,
                        peers@[k],
                    ),
        {
            let peer: u64 = peers[i];
            let request = self.replication_to(peer, &log_entries);
            sent.push((peer, request));
        }
        proof {
            assert forall|i: int| 0 <= i < sent@.len() implies self.peers@.contains(
                (#[trigger] sent@[i]).0,
            ) by {
                assert(peers@.to_set().contains(peers@[i]));
            }
            assert forall|peer: u64| #[trigger] self.peers@.contains(peer) implies exists|i: int|
                0 <= i < sent@.len() && (#[trigger] sent@[i]).0 == peer by {
                assert(peers@.to_set().contains(peer));
                let k = choose|k: int| 0 <= k < peers@.len() && peers@[k] == peer;
                assert(sent@[k].0 == peer);
            }
        }
        sent
    }

    /// What the leader is to send to the peer, given the part of the log that peers may need.
    fn replication_to(&self, peer: u64, log_entries: &Vec<LogEntry>) -> (r: Replication)
        requires
            moments_wf(self.state@),
            state::entries_view(log_entries@) == replication_window(self.state@),
            rpc::entries_wf(state::entries_view(log_entries@)),
        ensures
            r@ == replication_for(self.state@, self.id, peer),
            carries(r@, self.state@, peer),
    {
        let peer_next_index: u64 = match self.state.next_index.get(&peer) {
            Some(next) => *next,
            None => 1,
        };
        if peer_next_index <= self.state.log_offset {
            match &self.state.snapshot {
                Some(snapshot) => {
                    return Replication::Snapshot(
                        snapshot_to_proto(snapshot, self.state.current_term, self.id),
                    );
                },
                None => {},
            }
        }
        let prev_log_index: u64 = peer_next_index.saturating_sub(1);
        let prev_log_term: u64 = if prev_log_index == 0 {
            0
        } else if prev_log_index == self.state.log_offset {
            match &self.state.snapshot {
                Some(snapshot) => snapshot.last_included_term,
                None => 0,
            }
        } else {
            find_term(log_entries, prev_log_index)
        };
        let entries = messages_from(log_entries, peer_next_index);
        Replication::Append(
            AppendEntriesRequest {
                term: self.state.current_term,
                leader_id: self.id,
                prev_log_index,
                prev_log_term,
                entries,
                leader_commit: self.state.commit_index,
            },
        )
    }
}

/// The moments in the part of the log that peers may need are moments of the calendar.
proof fn window_wf(s: StateView)
    requires
        rpc::entries_wf(s.log),
    ensures
        rpc::entries_wf(replication_window(s)),
{
    let window = replication_window(s);
    assert forall|i: int| 0 <= i < window.len() implies rpc::command_wf(
        (#[trigger] window[i]).command,
    ) by {
        assert(s.log.contains(window[i]));
    }
}

// ---------------------------------------------------------------------------
// Answers of peers
// ---------------------------------------------------------------------------

/// How many peers are known to hold the entry at `index`.
pub open spec fn peers_holding(matched: Map<u64, u64>, index: u64) -> nat {
    matched.dom().filter(|peer: u64| matched[peer] >= index).len()
}

/// How many nodes, the leader among them, are known to hold the entry at `index`.
pub open spec fn nodes_holding(s: StateView, index: u64) -> nat {
    peers_holding(s.match_index, index) + if s.last_index() >= index {
        1nat
    } else {
        0nat
    }
}

/// The number of nodes that make a majority: more than half of the peers and the leader.
pub open spec fn majority(s: StateView) -> nat {
    ((s.match_index.dom().len() + 1) / 2 + 1) as nat
}

/// `index` is the largest that a majority of the nodes is known to hold.
pub open spec fn is_majority_index(s: StateView, index: u64) -> bool {
    &&& nodes_holding(s, index) >= majority(s)
    &&& forall|other: u64| other > index ==> #[trigger] nodes_holding(s, other) < majority(s)
}

/// The largest index that a majority of the nodes is known to hold.
pub open spec fn majority_index(s: StateView) -> u64 {
    choose|index: u64| is_majority_index(s, index)
}

/// The leader may commit up to `index`: that lies ahead, and the entry there is of its own term.
pub open spec fn may_commit(s: StateView, index: u64) -> bool {
    &&& index > s.commit_index
    &&& s.has_entry(index as int)
    &&& s.entry(index as int).term == s.current_term
}

/// The state after a leader looked for entries that it may commit.
pub open spec fn commit_advanced(s: StateView) -> StateView {
    if may_commit(s, majority_index(s)) {
        StateView { commit_index: majority_index(s), ..s }
    } else {
        s
    }
}

/// How far the peer is known to hold the leader's log.
pub open spec fn matched_up_to(s: StateView, peer: u64) -> u64 {
    if s.match_index.contains_key(peer) {
        s.match_index[peer]
    } else {
        0
    }
}

/// The state after a peer took over entries up to `index`.
pub open spec fn peer_caught_up(s: StateView, peer: u64, index: u64) -> StateView {
    StateView {
        match_index: s.match_index.insert(peer, index),
        next_index: s.next_index.insert(peer, (index + 1) as u64),
        ..s
    }
}

/// The state of a leader after a peer rejected its entries: it will try one entry further back.
pub open spec fn peer_fell_back(s: StateView, peer: u64) -> StateView {
    if peer_next(s, peer) > 1 {
        StateView {
            next_index: s.next_index.insert(peer, (peer_next(s, peer) - 1) as u64),
            ..s
        }
    } else {
        s
    }
}

/// The state after a peer answered to entries. A peer that took them over in the term of the
/// leader holds the leader's log up to their end, whatever else its own log holds.
pub open spec fn after_append_response(
    s: StateView,
    peer: u64,
    sent: AppendMessage,
    resp: AppendEntriesResponse,
) -> StateView {
    if resp.term > s.current_term {
        s.as_follower(resp.term)
    } else if !(s.role is Leader) {
        s
    } else if !resp.success {
        peer_fell_back(s, peer)
    } else if sent.term == s.current_term && resp.term == s.current_term {
        commit_advanced(peer_caught_up(s, peer, rpc::end_of(sent) as u64))
    } else {
        s
    }
}

/// The state after a peer answered to a snapshot.
pub open spec fn after_snapshot_response(
    s: StateView,
    peer: u64,
    sent: SnapshotMessage,
    resp: InstallSnapshotResponse,
) -> StateView {
    if resp.term > s.current_term {
        s.as_follower(resp.term)
    } else {
        peer_caught_up(s, peer, sent.last_included_index)
    }
}

/// How many of the numbers are at least `least`.
spec fn count_at_least(values: Seq<u64>, least: u64) -> nat
    decreases values.len(),
{
    if values.len() == 0 {
        0
    } else {
        count_at_least(values.drop_last(), least) + if values.last() >= least {
            1nat
        } else {
            0nat
        }
    }
}

/// How many of the numbers are at least `least`.
fn count_from(values: &Vec<u64>, least: u64) -> (r: usize)
    ensures
        r == count_at_least(values@, least),
        r <= values@.len(),
{
    let mut count: usize = 0;
    for i in 0..values.len()
        invariant
            count == count_at_least(values@.take(i as int), least),
            count <= i,
    {
        assert(values@.take(i + 1).drop_last() =~= values@.take(i as int));
        if values[i] >= least {
            count = count + 1;
        }
    }
    assert(values@.take(values@.len() as int) =~= values@);
    count
}

/// A larger bound counts no more numbers.
proof fn count_falls(values: Seq<u64>, least: u64, larger: u64)
    requires
        least <= larger,
    ensures
        count_at_least(values, larger) <= count_at_least(values, least),
        count_at_least(values, least) <= values.len(),
    decreases values.len(),
{
    if values.len() > 0 {
        count_falls(values.drop_last(), least, larger);
    }
}

/// Where no number lies between two bounds, both count the same.
proof fn count_same(values: Seq<u64>, least: u64, larger: u64)
    requires
        least <= larger,
        forall|i: int| 0 <= i < values.len() ==> !(least <= #[trigger] values[i] < larger),
    ensures
        count_at_least(values, larger) == count_at_least(values, least),
    decreases values.len(),
{
    if values.len() > 0 {
        assert(values.last() == values[values.len() - 1]);
        assert forall|i: int| 0 <= i < values.drop_last().len() implies !(least
            <= #[trigger] values.drop_last()[i] < larger) by {
            assert(values.drop_last()[i] == values[i]);
        }
        count_same(values.drop_last(), least, larger);
    }
}

/// Every number is at least 0.
proof fn count_all(values: Seq<u64>)
    ensures
        count_at_least(values, 0) == values.len(),
    decreases values.len(),
{
    if values.len() > 0 {
        count_all(values.drop_last());
    }
}

/// Counting the values of a map by its keys.
proof fn count_of_map(keys: Seq<u64>, values: Seq<u64>, m: Map<u64, u64>, least: u64)
    requires
        keys.no_duplicates(),
        values.len() == keys.len(),
        forall|i: int| 0 <= i < keys.len() ==> #[trigger] values[i] == m[keys[i]],
    ensures
        count_at_least(values, least) == keys.to_set().filter(
            |peer: u64| m[peer] >= least,
        ).len(),
    decreases keys.len(),
{
    let which = |peer: u64| m[peer] >= least;
    if keys.len() == 0 {
        assert(keys.to_set().filter(which) =~= Set::<u64>::empty());
    } else {
        let front = keys.drop_last();
        let last = keys.last();
        assert forall|i: int| 0 <= i < front.len() implies #[trigger] values.drop_last()[i]
            == m[front[i]] by {
            assert(values[i] == m[keys[i]]);
        }
        count_of_map(front, values.drop_last(), m, least);
        assert(values[values.len() - 1] == m[keys[keys.len() - 1]]);
        assert(!front.contains(last));
        assert(keys =~= front.push(last));
        lemmas::push_contains(front, last);
        if m[last] >= least {
            assert(keys.to_set().filter(which) =~= front.to_set().filter(which).insert(last));
        } else {
            assert(keys.to_set().filter(which) =~= front.to_set().filter(which));
        }
    }
}

/// Where numbers are at least `x`, one of them counts as many as `x` does.
proof fn counted_by_a_value(values: Seq<u64>, x: u64) -> (i: int)
    requires
        count_at_least(values, x) > 0,
    ensures
        0 <= i < values.len(),
        values[i] >= x,
        count_at_least(values, values[i]) == count_at_least(values, x),
    decreases u64::MAX - x,
{
    if exists|i: int| 0 <= i < values.len() && values[i] == x {
        choose|i: int| 0 <= i < values.len() && values[i] == x
    } else {
        if x == u64::MAX {
            none_counted(values, x);
            0
        } else {
            let y = (x + 1) as u64;
            count_same(values, x, y);
            counted_by_a_value(values, y)
        }
    }
}

/// Without a number of at least `x` the count is 0.
proof fn none_counted(values: Seq<u64>, x: u64)
    requires
        forall|i: int| 0 <= i < values.len() ==> #[trigger] values[i] < x,
    ensures
        count_at_least(values, x) == 0,
    decreases values.len(),
{
    if values.len() > 0 {
        assert(values.last() == values[values.len() - 1]);
        assert forall|i: int| 0 <= i < values.drop_last().len() implies #[trigger] values.drop_last()[i]
            < x by {
            assert(values.drop_last()[i] == values[i]);
        }
        none_counted(values.drop_last(), x);
    }
}

/// The indices up to which peers, and last the leader itself, hold the log.
fn held_indices(state: &RaftState) -> (r: Vec<u64>)
    ensures
        r@.len() == state@.match_index.dom().len() + 1,
        forall|x: u64| #[trigger] count_at_least(r@, x) == nodes_holding(state@, x),
{
    let peers = map_keys(&state.match_index);
    let mut held: Vec<u64> = Vec::new();
    for i in 0..peers.len()
        invariant
            peers@.to_set() == state.match_index@.dom(),
            held@.len() == i,
            forall|k: int| 0 <= k < i ==> #[trigger] held@[k] == state.match_index@[peers@[k]],
    {
        assert(peers@.to_set().contains(peers@[i as int]));
        match state.match_index.get(&peers[i]) {
            Some(index) => held.push(*index),
            None => {},
        }
    }
    let ghost of_peers = held@;
    held.push(state.last_log_index());
    proof {
        peers@.unique_seq_to_set();
        assert forall|x: u64| #[trigger] count_at_least(held@, x) == nodes_holding(state@, x) by {
            count_of_map(peers@, of_peers, state.match_index@, x);
            assert(held@.drop_last() =~= of_peers);
        }
    }
    held
}

/// The largest index that a majority of the nodes is known to hold.
fn find_majority_index(state: &RaftState) -> (r: u64)
    ensures
        r == majority_index(state@),
        is_majority_index(state@, r),
{
    let held = held_indices(state);
    let needed: usize = held.len() / 2 + 1;
    let mut best: u64 = 0;
    proof {
        count_all(held@);
    }
    for i in 0..held.len()
        invariant
            needed == held@.len() / 2 + 1,
            count_at_least(held@, best) >= needed,
            forall|k: int|
                0 <= k < i && count_at_least(held@, #[trigger] held@[k]) >= needed ==> held@[k]
                    <= best,
    {
        if held[i] > best && count_from(&held, held[i]) >= needed {
            best = held[i];
        }
    }
    proof {
        assert forall|other: u64| other > best implies #[trigger] nodes_holding(state@, other)
            < majority(state@) by {
            assert(count_at_least(held@, other) == nodes_holding(state@, other));
            if count_at_least(held@, other) >= needed {
                let i = counted_by_a_value(held@, other);
                assert(count_at_least(held@, held@[i]) >= needed);
            }
        }
        assert(count_at_least(held@, best) == nodes_holding(state@, best));
        assert(is_majority_index(state@, best));
        let chosen = majority_index(state@);
        assert(is_majority_index(state@, chosen));
        assert(nodes_holding(state@, chosen) >= majority(state@));
    }
    best
}

impl RaftNode {
    /// Commits what a majority of the nodes is known to hold, if it ends with an entry of this
    /// term. Tells whether the commit index moved.
    fn advance_commit(&mut self) -> (r: bool)
        ensures
            final(self).state@ == commit_advanced(old(self).state@),
            r == (final(self).state@.commit_index > old(self).state@.commit_index),
            final(self).commit_notified == (if r {
                final(self).state@.commit_index
            } else {
                old(self).commit_notified
            }),
            *final(self) == (RaftNode {
                state: final(self).state,
                commit_notified: final(self).commit_notified,
                ..*old(self)
            }),
    {
        let new_commit_index: u64 = find_majority_index(&self.state);
        if new_commit_index > self.state.commit_index {
            let of_this_term = match self.state.get_entry(new_commit_index) {
                Some(entry) => entry.term == self.state.current_term,
                None => false,
            };
            if of_this_term {
                self.state.commit_index = new_commit_index;
                self.commit_notified = new_commit_index;
                return true;
            }
        }
        false
    }

    /// Notes that a peer holds the log up to `index`.
    fn note_caught_up(&mut self, peer: u64, index: u64)
        requires
            index < u64::MAX,
        ensures
            final(self).state@ == peer_caught_up(old(self).state@, peer, index),
            *final(self) == (RaftNode { state: final(self).state, ..*old(self) }),
    {
        self.state.match_index.insert(peer, index);
        self.state.next_index.insert(peer, index + 1);
    }

    /// Takes note of a peer's answer to the entries that were sent to it. Tells whether the
    /// commit index moved.
    pub fn handle_append_response(
        &mut self,
        peer: u64,
        sent: &AppendEntriesRequest,
        resp: AppendEntriesResponse,
        now: Moment,
    ) -> (r: bool)
        requires
            rpc::end_of(sent@) < u64::MAX,
        ensures
            final(self).state@ == after_append_response(old(self).state@, peer, sent@, resp),
            final(self).peer_last_seen@ == old(self).peer_last_seen@.insert(peer, now),
            r == (final(self).state@.commit_index > old(self).state@.commit_index),
            final(self).commit_notified == (if r {
                final(self).state@.commit_index
            } else {
                old(self).commit_notified
            }),
            *final(self) == (RaftNode {
                state: final(self).state,
                peer_last_seen: final(self).peer_last_seen,
                commit_notified: final(self).commit_notified,
                ..*old(self)
            }),
    {
        self.peer_last_seen.insert(peer, now);
        if resp.term > self.state.current_term {
            self.state.become_follower(resp.term);
            return false;
        }
        if self.state.role != RaftRole::Leader {
            return false;
        }
        if resp.success {
            if sent.term != self.state.current_term || resp.term != self.state.current_term {
                return false;
            }
            self.note_caught_up(peer, sent.prev_log_index + sent.entries.len() as u64);
            return self.advance_commit();
        }
        let current: u64 = match self.state.next_index.get(&peer) {
            Some(next) => *next,
            None => 1,
        };
        if current > 1 {
            self.state.next_index.insert(peer, current - 1);
        }
        false
    }

    /// Takes note of a peer's answer to the snapshot that was sent to it.
    pub fn handle_snapshot_response(
        &mut self,
        peer: u64,
        sent: &InstallSnapshotRequest,
        resp: InstallSnapshotResponse,
        now: Moment,
    )
        requires
            sent.last_included_index < u64::MAX,
        ensures
            final(self).state@ == after_snapshot_response(old(self).state@, peer, sent@, resp),
            final(self).peer_last_seen@ == old(self).peer_last_seen@.insert(peer, now),
            *final(self) == (RaftNode {
                state: final(self).state,
                peer_last_seen: final(self).peer_last_seen,
                ..*old(self)
            }),
    {
        self.peer_last_seen.insert(peer, now);
        if resp.term > self.state.current_term {
            self.state.become_follower(resp.term);
            return;
        }
        self.note_caught_up(peer, sent.last_included_index);
    }
}

// ---------------------------------------------------------------------------
// Elections
// ---------------------------------------------------------------------------

/// An election under way: its term, the votes so far, and whether it goes on.
#[derive(Debug, Clone, Copy, PartialEq, Eq, Structural)]
pub struct Election {
    pub term: u64,
    pub votes: u64,
    pub open: bool,
}

/// The request for votes of a candidate in this state.
pub open spec fn vote_request(s: StateView, id: u64) -> VoteRequest {
    VoteRequest {
        term: s.current_term,
        candidate_id: id,
        last_log_index: s.last_index(),
        last_log_term: s.last_term(),
    }
}

/// The election after an answer. An answer from a later term ends it; a vote counts.
pub open spec fn election_after(e: Election, resp: VoteResponse) -> Election {
    if !e.open {
        e
    } else if resp.term > e.term {
        Election { open: false, ..e }
    } else if resp.vote_granted {
        Election { votes: (e.votes + 1) as u64, ..e }
    } else {
        e
    }
}

/// The state after an answer to a request for a vote in `term`.
pub open spec fn after_vote_response(s: StateView, resp: VoteResponse) -> StateView {
    rpc::with_term_of(s, resp.term)
}

/// The election is won: it still goes on, the node still stands in its term, and a majority of
/// the nodes, itself included, voted for it.
pub open spec fn election_won(s: StateView, e: Election, n_peers: nat) -> bool {
    &&& e.open
    &&& s.role is Candidate
    &&& s.current_term == e.term
    &&& e.votes >= (n_peers + 1) / 2 + 1
}

/// The state after an election was closed.
pub open spec fn after_election(
    s: StateView,
    e: Election,
    id: u64,
    peer_ids: Seq<u64>,
) -> StateView {
    if e.open && s.role is Candidate && s.current_term == e.term {
        let counted = StateView { votes_received: e.votes, ..s };
        if election_won(s, e, peer_ids.len()) {
            counted.as_leader(id, peer_ids)
        } else {
            counted
        }
    } else {
        s
    }
}

impl RaftNode {
    /// Starts an election: the node becomes a candidate in the next term. Returns the election
    /// and the request for the votes of all connected peers.
    pub fn start_election(&mut self) -> (r: (Election, VoteRequest))
        requires
            old(self).state@.current_term < u64::MAX,
        ensures
            final(self).state@ == old(self).state@.as_candidate(old(self).id),
            r.0 == (Election { term: final(self).state@.current_term, votes: 1, open: true }),
            r.1 == vote_request(final(self).state@, old(self).id),
            *final(self) == (RaftNode { state: final(self).state, ..*old(self) }),
    {
        self.state.become_candidate(self.id);
        let term: u64 = self.state.current_term;
        (
            Election { term, votes: 1, open: true },
            VoteRequest {
                term,
                candidate_id: self.id,
                last_log_index: self.state.last_log_index(),
                last_log_term: self.state.last_log_term(),
            },
        )
    }

    /// Takes note of a peer's answer to the request for a vote. An answer from a later term ends
    /// the election.
    pub fn handle_vote_response(
        &mut self,
        election: Election,
        peer: u64,
        resp: VoteResponse,
        now: Moment,
    ) -> (r: Election)
        requires
            election.votes < u64::MAX,
        ensures
            r == election_after(election, resp),
            final(self).state@ == after_vote_response(old(self).state@, resp),
            final(self).peer_last_seen@ == old(self).peer_last_seen@.insert(peer, now),
            *final(self) == (RaftNode {
                state: final(self).state,
                peer_last_seen: final(self).peer_last_seen,
                ..*old(self)
            }),
    {
        self.peer_last_seen.insert(peer, now);
        if resp.term > self.state.current_term {
            self.state.become_follower(resp.term);
        }
        if !election.open {
            election
        } else if resp.term > election.term {
            Election { open: false, ..election }
        } else if resp.vote_granted {
            Election { votes: election.votes + 1, ..election }
        } else {
            election
        }
    }

    /// Closes an election. With the votes of a majority the candidate becomes leader. Tells
    /// whether it did.
    pub fn finish_election(&mut self, election: Election) -> (r: bool)
        requires
            old(self).state@.last_index() < u64::MAX,
        ensures
            r == election_won(old(self).state@, election, old(self).config.peers@.len()),
            final(self).state@ == after_election(
                old(self).state@,
                election,
                old(self).id,
                old(self).config.peer_ids(),
            ),
            *final(self) == (RaftNode { state: final(self).state, ..*old(self) }),
    {
        if election.open && self.state.role == RaftRole::Candidate && self.state.current_term
            == election.term {
            self.state.votes_received = election.votes;
            let n_peers: u64 = self.config.peers.len() as u64;
            let needed: u128 = (n_peers as u128 + 1) / 2 + 1;
            if election.votes as u128 >= needed {
                let peer_ids = self.config.get_peer_ids();
                self.state.become_leader(self.id, peer_ids.as_slice());
                return true;
            }
        }
        false
    }

    /// Handles a request for a vote. A vote granted counts as a sign of life.
    pub fn handle_vote_request(&mut self, req: VoteRequest, now: Moment) -> (r: Result<
        VoteResponse,
        String,
    >)
        ensures
            final(self).state@ == rpc::after_vote_request(old(self).state@, req),
            r == Ok::<VoteResponse, String>(
                VoteResponse {
                    term: final(self).state@.current_term,
                    vote_granted: rpc::grants_vote(old(self).state@, req),
                },
            ),
            final(self).last_heartbeat == (if rpc::grants_vote(old(self).state@, req) {
                now
            } else {
                old(self).last_heartbeat
            }),
            *final(self) == (RaftNode {
                state: final(self).state,
                last_heartbeat: final(self).last_heartbeat,
                ..*old(self)
            }),
    {
        let response = handle_request_vote(&mut self.state, &req, self.id);
        match response {
            Ok(response) => {
                if response.vote_granted {
                    self.last_heartbeat = now;
                }
                Ok(response)
            },
            Err(e) => Err(e),
        }
    }

    /// Handles entries, or a heartbeat, from a leader. Accepting them counts as a sign of life,
    /// and a commit index that moved is announced.
    pub fn handle_append_entries(&mut self, req: AppendEntriesRequest, now: Moment) -> (r: Result<
        AppendEntriesResponse,
        String,
    >)
        ensures
            final(self).state@ == rpc::after_append_entries(old(self).state@, req@),
            r == Ok::<AppendEntriesResponse, String>(
                AppendEntriesResponse {
                    term: final(self).state@.current_term,
                    success: rpc::accepts_entries(old(self).state@, req@),
                    match_index: final(self).state@.last_index(),
                },
            ),
            final(self).last_heartbeat == (if rpc::accepts_entries(old(self).state@, req@) {
                now
            } else {
                old(self).last_heartbeat
            }),
            final(self).commit_notified == (if rpc::accepts_entries(old(self).state@, req@)
                && final(self).state@.commit_index > old(self).state@.commit_index {
                final(self).state@.commit_index
            } else {
                old(self).commit_notified
            }),
            *final(self) == (RaftNode {
                state: final(self).state,
                last_heartbeat: final(self).last_heartbeat,
                commit_notified: final(self).commit_notified,
                ..*old(self)
            }),
    {
        let old_commit_index: u64 = self.state.commit_index;
        let response = handle_append_entries(&mut self.state, &req, self.id);
        match response {
            Ok(response) => {
                if response.success && self.state.commit_index > old_commit_index {
                    self.commit_notified = self.state.commit_index;
                }
                if response.success {
                    self.last_heartbeat = now;
                }
                Ok(response)
            },
            Err(e) => Err(e),
        }
    }

    /// Handles a snapshot from a leader. A snapshot that stands for the compacted prefix from
    /// then on is kept until the job queue is rebuilt from it, and those who wait for commits are
    /// woken. The request counts as a sign of life.
    pub fn handle_install_snapshot(&mut self, req: InstallSnapshotRequest, now: Moment) -> (r:
        Result<InstallSnapshotResponse, String>)
        ensures
            final(self).state@ == rpc::after_install_snapshot(old(self).state@, req@),
            r == Ok::<InstallSnapshotResponse, String>(
                InstallSnapshotResponse { term: final(self).state@.current_term },
            ),
            final(self).last_heartbeat == now,
            covered_by_snapshot(final(self).state@, req.last_included_index) ==> {
                &&& state::opt_snapshot(final(self).pending_snapshot)
                    == final(self).state@.snapshot
                &&& final(self).commit_notified == final(self).state@.commit_index
            },
            !covered_by_snapshot(final(self).state@, req.last_included_index) ==> {
                &&& final(self).pending_snapshot == old(self).pending_snapshot
                &&& final(self).commit_notified == old(self).commit_notified
            },
            *final(self) == (RaftNode {
                state: final(self).state,
                last_heartbeat: now,
                pending_snapshot: final(self).pending_snapshot,
                commit_notified: final(self).commit_notified,
                ..*old(self)
            }),
    {
        let response = handle_install_snapshot(&mut self.state, &req, self.id);
        if self.state.log_offset >= req.last_included_index {
            match &self.state.snapshot {
                Some(snapshot) => {
                    self.pending_snapshot = Some(snapshot.clone());
                    self.commit_notified = self.state.commit_index;
                },
                None => {},
            }
        }
        self.last_heartbeat = now;
        response
    }

    /// Takes the snapshot that the job queue is to be rebuilt from.
    pub fn take_pending_snapshot(&mut self) -> (r: Option<Snapshot>)
        ensures
            r == old(self).pending_snapshot,
            *final(self) == (RaftNode { pending_snapshot: None, ..*old(self) }),
    {
        self.pending_snapshot.take()
    }

    /// Appends a command to the leader's log and returns its index. A leader that is a majority
    /// by itself commits it at once. Any other node refuses and names the leader it knows of.
    pub fn handle_append_command(&mut self, command: Command) -> (r: Result<u64, String>)
        requires
            old(self).state@.last_index() < u64::MAX,
        ensures
            old(self).state@.role is Leader ==> {
                &&& final(self).state@ == commit_advanced(old(self).state@.appended(command@))
                &&& r matches Ok(index) && index == final(self).state@.last_index()
            },
            !(old(self).state@.role is Leader) ==> {
                &&& final(self).state@ == old(self).state@
                &&& r matches Err(e) && e@ == not_leader_text(old(self).state@.leader_id)
            },
            final(self).commit_notified == (if final(self).state@.commit_index
                > old(self).state@.commit_index {
                final(self).state@.commit_index
            } else {
                old(self).commit_notified
            }),
            *final(self) == (RaftNode {
                state: final(self).state,
                commit_notified: final(self).commit_notified,
                ..*old(self)
            }),
    {
        if self.state.role != RaftRole::Leader {
            return Err(
                "Not leader. Current leader: ".to_owned().concat(
                    debug_opt_u64(&self.state.leader_id).as_str(),
                ),
            );
        }
        let index: u64 = self.state.append_entry(command).index;
        self.advance_commit();
        Ok(index)
    }
}

/// What became of a command that a leader appended.
#[derive(Debug, Clone, Copy, PartialEq, Eq, Structural)]
pub enum ProposalState {
    /// It is not known yet.
    Pending,
    /// The entry is committed.
    Committed,
    /// Another entry took its place.
    Lost,
}

/// The term of the entry at an index, where the node knows it.
pub open spec fn term_at(s: StateView, index: u64) -> Option<u64> {
    if s.has_entry(index as int) {
        Some(s.entry(index as int).term)
    } else if index == s.log_offset && s.snapshot is Some {
        Some(s.snapshot->0.last_included_term)
    } else {
        None
    }
}

/// What became of the command that the leader of `term` appended at `index`. Where the entry is
/// compacted it is still that command's as long as the node is in that term, in which nobody else
/// leads.
pub open spec fn proposal_state_of(s: StateView, index: u64, term: u64) -> ProposalState {
    match term_at(s, index) {
        Some(t) => if t != term {
            ProposalState::Lost
        } else if index <= s.commit_index {
            ProposalState::Committed
        } else {
            ProposalState::Pending
        },
        None => if index < s.log_offset && index <= s.commit_index && s.current_term == term {
            ProposalState::Committed
        } else {
            ProposalState::Pending
        },
    }
}

impl RaftNode {
    /// What became of the command that this node, as leader of `term`, appended at `index`.
    pub fn proposal_state(&self, index: u64, term: u64) -> (r: ProposalState)
        ensures
            r == proposal_state_of(self.state@, index, term),
    {
        let known: Option<u64> = match self.state.get_entry(index) {
            Some(entry) => Some(entry.term),
            None => {
                if index == self.state.log_offset {
                    match &self.state.snapshot {
                        Some(snapshot) => Some(snapshot.last_included_term),
                        None => None,
                    }
                } else {
                    None
                }
            },
        };
        match known {
            Some(t) => {
                if t != term {
                    ProposalState::Lost
                } else if index <= self.state.commit_index {
                    ProposalState::Committed
                } else {
                    ProposalState::Pending
                }
            },
            None => {
                if index < self.state.log_offset && index <= self.state.commit_index
                    && self.state.current_term == term {
                    ProposalState::Committed
                } else {
                    ProposalState::Pending
                }
            },
        }
    }
}

/// The refusal of a command by a node that is not the leader.
pub open spec fn not_leader_text(leader_id: Option<u64>) -> Seq<char> {
    "Not leader. Current leader: "@ + text::debug_opt(
        match leader_id {
            Some(id) => Some(text::decimal(id as nat)),
            None => None,
        },
    )
}

/// The snapshot of a node stands for the entries up to `index`.
pub open spec fn covered_by_snapshot(s: StateView, index: u64) -> bool {
    s.snapshot is Some && s.log_offset >= index
}

// ---------------------------------------------------------------------------
// Leadership transfer
// ---------------------------------------------------------------------------

/// A transfer of leadership under way: to whom, in which term, and the last entry the target has
/// to hold first.
#[derive(Debug, Clone, Copy, PartialEq, Eq, Structural)]
pub struct Transfer {
    pub target: u64,
    pub term: u64,
    pub leader_last_index: u64,
}

/// What to do next in a transfer.
#[derive(Debug)]
pub enum TransferStep {
    /// The target has caught up: ask it to stand for election.
    SendTimeoutNow,
    /// The target lags behind: send it entries, and look again later.
    SendHeartbeatsAndWait,
    /// Time is up.
    GiveUp(String),
}

/// What came of the request that the target stand for election.
#[derive(Debug)]
pub enum TimeoutNowOutcome {
    Answered(TimeoutNowResponse),
    Failed(String),
    TimedOut,
}

/// No peer is known to hold more of the log than `peer`.
pub open spec fn most_caught_up(matched: Map<u64, u64>, peer: u64) -> bool {
    &&& matched.contains_key(peer)
    &&& forall|other: u64| #[trigger] matched.contains_key(other) ==> matched[other] <= matched[peer]
}

/// A peer that is known to hold as much of the log as any; `None` without peers.
fn find_most_caught_up(matched: &HashMap<u64, u64>) -> (r: Option<u64>)
    ensures
        r is None <==> matched@.dom() == Set::<u64>::empty(),
        r matches Some(peer) ==> most_caught_up(matched@, peer),
{
    let peers = map_keys(matched);
    let mut best: Option<(u64, u64)> = None;
    for i in 0..peers.len()
        invariant
            peers@.to_set() == matched@.dom(),
            best is None <==> i == 0,
            best matches Some(b) ==> matched@.contains_key(b.0) && matched@[b.0] == b.1 && forall|
                k: int,
            |
                0 <= k < i ==> matched@[#[trigger] peers@[k]] <= b.1,
    {
        assert(peers@.to_set().contains(peers@[i as int]));
        match matched.get(&peers[i]) {
            Some(index) => {
                let better = match best {
                    Some((_, most)) => *index >= most,
                    None => true,
                };
                if better {
                    best = Some((peers[i], *index));
                }
            },
            None => {},
        }
    }
    proof {
        assert forall|peer: u64| #[trigger] matched@.contains_key(peer) implies peers@.contains(
            peer,
        ) by {
            assert(peers@.to_set().contains(peer));
        }
        if peers@.len() == 0 {
            assert(matched@.dom() =~= Set::<u64>::empty());
        } else {
            assert(peers@.to_set().contains(peers@[0]));
        }
    }
    match best {
        Some((peer, _)) => Some(peer),
        None => None,
    }
}

/// A transfer may start towards `target`: it is the peer asked for, or, when none is asked for,
/// one that holds as much of the log as any.
pub open spec fn transfer_target(
    s: StateView,
    peer_ids: Seq<u64>,
    asked: Option<u64>,
    target: u64,
) -> bool {
    match asked {
        Some(id) => target == id && peer_ids.contains(id),
        None => most_caught_up(s.match_index, target),
    }
}

/// Why a transfer cannot start.
pub open spec fn transfer_refusal(
    s: StateView,
    peer_ids: Seq<u64>,
    asked: Option<u64>,
) -> Option<Seq<char>> {
    if !(s.role is Leader) {
        Some("Not the leader"@)
    } else {
        match asked {
            Some(id) => if peer_ids.contains(id) {
                None
            } else {
                Some("Unknown target node "@ + text::decimal(id as nat))
            },
            None => if s.match_index.dom() == Set::<u64>::empty() {
                Some("No peers available for transfer"@)
            } else {
                None
            },
        }
    }
}

impl RaftNode {
    /// Starts a transfer of leadership, to the node asked for or to the peer that holds most of
    /// the log.
    pub fn handle_transfer_leadership(&self, target_id: Option<u64>) -> (r: Result<
        Transfer,
        String,
    >)
        ensures
            r is Ok <==> transfer_refusal(self.state@, self.config.peer_ids(), target_id) is None,
            r matches Ok(transfer) ==> {
                &&& transfer_target(
                    self.state@,
                    self.config.peer_ids(),
                    target_id,
                    transfer.target,
                )
                &&& transfer.term == self.state@.current_term
                &&& transfer.leader_last_index == self.state@.last_index()
            },
            r matches Err(e) ==> transfer_refusal(self.state@, self.config.peer_ids(), target_id)
                == Some(e@),
    {
        if self.state.role != RaftRole::Leader {
            return Err("Not the leader".to_owned());
        }
        let target: u64 = match target_id {
            Some(id) => {
                if !self.config.is_peer(id) {
                    return Err("Unknown target node ".to_owned().concat(decimal_text(id).as_str()));
                }
                id
            },
            None => match find_most_caught_up(&self.state.match_index) {
                Some(peer) => peer,
                None => {
                    return Err("No peers available for transfer".to_owned());
                },
            },
        };
        Ok(
            Transfer {
                target,
                term: self.state.current_term,
                leader_last_index: self.state.last_log_index(),
            },
        )
    }

    /// Decides how a transfer goes on: the target is asked to stand once it holds the log, and
    /// given up on when the deadline has passed before.
    pub fn transfer_step(&self, transfer: &Transfer, deadline_passed: bool) -> (r: TransferStep)
        ensures
            r is SendTimeoutNow <==> matched_up_to(self.state@, transfer.target)
                >= transfer.leader_last_index,
            r is GiveUp <==> matched_up_to(self.state@, transfer.target)
                < transfer.leader_last_index && deadline_passed,
            r matches TransferStep::GiveUp(e) ==> e@ == "Target node "@ + text::decimal(
                transfer.target as nat,
            ) + " did not catch up within 2s"@,
    {
        let target_match: u64 = match self.state.match_index.get(&transfer.target) {
            Some(index) => *index,
            None => 0,
        };
        if target_match >= transfer.leader_last_index {
            TransferStep::SendTimeoutNow
        } else if deadline_passed {
            TransferStep::GiveUp(
                "Target node ".to_owned().concat(decimal_text(transfer.target).as_str()).concat(
                    " did not catch up within 2s",
                ),
            )
        } else {
            TransferStep::SendHeartbeatsAndWait
        }
    }

    /// The request that the target stand for election, if there is a connection to it.
    pub fn send_timeout_now(&self, target: u64, term: u64) -> (r: Result<TimeoutNowRequest, String>)
        ensures
            self.peers@.contains(target) ==> r == Ok::<TimeoutNowRequest, String>(
                TimeoutNowRequest { term, leader_id: self.id },
            ),
            !self.peers@.contains(target) ==> (r matches Err(e) && e@
                == "Not connected to target node "@ + text::decimal(target as nat)),
    {
        if self.peers.contains(&target) {
            Ok(TimeoutNowRequest { term, leader_id: self.id })
        } else {
            Err("Not connected to target node ".to_owned().concat(decimal_text(target).as_str()))
        }
    }

    /// Closes a transfer after the target was asked to stand for election. When the target
    /// agreed, the leader steps down, unless a later term has made it do so already.
    pub fn finish_transfer(&mut self, transfer: &Transfer, outcome: TimeoutNowOutcome) -> (r:
        Result<u64, String>)
        ensures
            r is Ok <==> transfer_failure(transfer.target, outcome) is None,
            r matches Ok(target) ==> {
                &&& target == transfer.target
                &&& final(self).state@ == (if old(self).state@.current_term == transfer.term {
                    old(self).state@.stepped_down()
                } else {
                    old(self).state@
                })
            },
            r matches Err(e) ==> {
                &&& transfer_failure(transfer.target, outcome) == Some(e@)
                &&& final(self).state@ == old(self).state@
            },
            *final(self) == (RaftNode { state: final(self).state, ..*old(self) }),
    {
        match outcome {
            TimeoutNowOutcome::Answered(resp) => {
                if resp.success {
                    if self.state.current_term == transfer.term {
                        self.state.step_down();
                    }
                    Ok(transfer.target)
                } else {
                    Err(
                        "TimeoutNow rejected by node ".to_owned().concat(
                            decimal_text(transfer.target).as_str(),
                        ).concat(" (term ").concat(decimal_text(resp.term).as_str()).concat(")"),
                    )
                }
            },
            TimeoutNowOutcome::Failed(e) => Err(
                "TimeoutNow RPC failed: ".to_owned().concat(e.as_str()),
            ),
            TimeoutNowOutcome::TimedOut => Err(
                "TimeoutNow RPC to node ".to_owned().concat(
                    decimal_text(transfer.target).as_str(),
                ).concat(" timed out"),
            ),
        }
    }

    /// Handles the request to stand for election at once. A request from an earlier term is
    /// refused; otherwise an election starts.
    pub fn handle_timeout_now(&mut self, req: TimeoutNowRequest) -> (r: Result<
        (Election, VoteRequest),
        TimeoutNowResponse,
    >)
        requires
            old(self).state@.current_term < u64::MAX,
        ensures
            req.term < old(self).state@.current_term ==> {
                &&& r == Err::<(Election, VoteRequest), TimeoutNowResponse>(
                    TimeoutNowResponse { term: old(self).state@.current_term, success: false },
                )
                &&& final(self).state@ == old(self).state@
            },
            req.term >= old(self).state@.current_term ==> {
                &&& final(self).state@ == old(self).state@.as_candidate(old(self).id)
                &&& r == Ok::<(Election, VoteRequest), TimeoutNowResponse>(
                    (
                        Election { term: final(self).state@.current_term, votes: 1, open: true },
                        vote_request(final(self).state@, old(self).id),
                    ),
                )
            },
            *final(self) == (RaftNode { state: final(self).state, ..*old(self) }),
    {
        let current_term: u64 = self.state.current_term;
        if req.term < current_term {
            return Err(TimeoutNowResponse { term: current_term, success: false });
        }
        Ok(self.start_election())
    }

    /// The answer to a request to stand for election, after the election is over.
    pub fn timeout_now_accepted(&self) -> (r: TimeoutNowResponse)
        ensures
            r == (TimeoutNowResponse { term: self.state@.current_term, success: true }),
    {
        TimeoutNowResponse { term: self.state.current_term, success: true }
    }
}

/// Why a transfer failed after the target was asked to stand for election.
pub open spec fn transfer_failure(target: u64, outcome: TimeoutNowOutcome) -> Option<Seq<char>> {
    match outcome {
        TimeoutNowOutcome::Answered(resp) => if resp.success {
            None
        } else {
            Some(
                "TimeoutNow rejected by node "@ + text::decimal(target as nat) + " (term "@
                    + text::decimal(resp.term as nat) + ")"@,
            )
        },
        TimeoutNowOutcome::Failed(e) => Some("TimeoutNow RPC failed: "@ + e@),
        TimeoutNowOutcome::TimedOut => Some(
            "TimeoutNow RPC to node "@ + text::decimal(target as nat) + " timed out"@,
        ),
    }
}

// ---------------------------------------------------------------------------
// Peers
// ---------------------------------------------------------------------------

/// A peer was heard of recently: less than `PEER_TIMEOUT_MS` ago.
pub open spec fn peer_alive(seen: Map<u64, Moment>, peer: u64, now: Moment) -> bool {
    seen.contains_key(peer) && clock::elapsed_ms(seen[peer], now) < PEER_TIMEOUT_MS
}

/// The peers with a connection and those cut off.
#[verifier::ext_equal]
pub struct Links {
    pub connected: Set<u64>,
    pub cut_off: Set<u64>,
}

/// The links after a peer was cut off; one without a connection stays as it is.
pub open spec fn after_disconnect(links: Links, peer: u64) -> Links {
    if links.connected.contains(peer) {
        Links { connected: links.connected.remove(peer), cut_off: links.cut_off.insert(peer) }
    } else {
        links
    }
}

/// The links after a peer was brought back; one that was not cut off stays as it is.
pub open spec fn after_reconnect(links: Links, peer: u64) -> Links {
    if links.cut_off.contains(peer) {
        Links { connected: links.connected.insert(peer), cut_off: links.cut_off.remove(peer) }
    } else {
        links
    }
}

/// The links after all peers were cut off.
pub open spec fn after_disconnect_all(links: Links) -> Links {
    Links { connected: Set::empty(), cut_off: links.cut_off.union(links.connected) }
}

/// The links after all peers were brought back.
pub open spec fn after_reconnect_all(links: Links) -> Links {
    Links { connected: links.connected.union(links.cut_off), cut_off: Set::empty() }
}

impl RaftNode {
    /// The peers with a connection and those cut off.
    pub open spec fn links(&self) -> Links {
        Links { connected: self.peers@, cut_off: self.disconnected_peers@ }
    }

    /// Which peers were heard of recently, at `now`. It means something on the leader only, which
    /// talks to all peers.
    pub fn get_peers_status(&self, now: Moment) -> (r: HashMap<u64, bool>)
        ensures
            r@.dom() == self.config.peer_ids().to_set(),
            forall|peer: u64| #[trigger]
                r@.contains_key(peer) ==> r@[peer] == peer_alive(self.peer_last_seen@, peer, now),
    {
        let ids = self.config.get_peer_ids();
        let mut status: HashMap<u64, bool> = HashMap::new();
        for i in 0..ids.len()
            invariant
                ids@ == self.config.peer_ids(),
                status@.dom() =~= ids@.take(i as int).to_set(),
                forall|peer: u64| #[trigger]
                    status@.contains_key(peer) ==> status@[peer] == peer_alive(
                        self.peer_last_seen@,
                        peer,
                        now,
                    ),
        {
            let alive = match self.peer_last_seen.get(&ids[i]) {
                Some(seen) => millis_between(*seen, now) < PEER_TIMEOUT_MS as u128,
                None => false,
            };
            proof {
                lemmas::push_contains(ids@.take(i as int), ids@[i as int]);
                assert(ids@.take(i + 1) =~= ids@.take(i as int).push(ids@[i as int]));
            }
            status.insert(ids[i], alive);
        }
        assert(ids@.take(ids@.len() as int) =~= ids@);
        status
    }

    /// The peers to which a connection is still to be made, in the order of the settings.
    pub fn peers_to_connect(&self) -> (r: Vec<PeerConfig>)
        ensures
            r@ == self.config.peers@.filter(|p: PeerConfig| !self.peers@.contains(p.node_id)),
    {
        let ghost which = |p: PeerConfig| !self.peers@.contains(p.node_id);
        let mut missing: Vec<PeerConfig> = Vec::new();
        for i in 0..self.config.peers.len()
            invariant
                which == (|p: PeerConfig| !self.peers@.contains(p.node_id)),
                missing@ =~= self.config.peers@.take(i as int).filter(which),
        {
            proof {
                lemmas::filter_step(self.config.peers@, i as int, which);
            }
            if !self.peers.contains(&self.config.peers[i].node_id) {
                missing.push(self.config.peers[i].clone());
            }
        }
        assert(self.config.peers@.take(self.config.peers@.len() as int) =~= self.config.peers@);
        missing
    }

    /// Takes note of a connection to a peer.
    pub fn peer_connected(&mut self, peer_id: u64)
        ensures
            final(self).peers@ == old(self).peers@.insert(peer_id),
            *final(self) == (RaftNode { peers: final(self).peers, ..*old(self) }),
    {
        self.peers.insert(peer_id);
    }

    /// Tells whether there is a connection to every peer.
    pub fn all_peers_connected(&self) -> (r: bool)
        ensures
            r == (forall|i: int|
                0 <= i < self.config.peers@.len() ==> self.peers@.contains(
                    (#[trigger] self.config.peers@[i]).node_id,
                )),
    {
        for i in 0..self.config.peers.len()
            invariant
                forall|k: int|
                    0 <= k < i ==> self.peers@.contains(
                        (#[trigger] self.config.peers@[k]).node_id,
                    ),
        {
            if !self.peers.contains(&self.config.peers[i].node_id) {
                return false;
            }
        }
        true
    }

    /// Cuts a connected peer off.
    pub fn disconnect_peer(&mut self, peer_id: u64)
        ensures
            final(self).links() == after_disconnect(old(self).links(), peer_id),
            *final(self) == (RaftNode {
                peers: final(self).peers,
                disconnected_peers: final(self).disconnected_peers,
                ..*old(self)
            }),
    {
        if self.peers.remove(&peer_id) {
            self.disconnected_peers.insert(peer_id);
        }
        assert(self.links() =~= after_disconnect(old(self).links(), peer_id));
    }

    /// Brings a peer back that was cut off.
    pub fn reconnect_peer(&mut self, peer_id: u64)
        ensures
            final(self).links() == after_reconnect(old(self).links(), peer_id),
            *final(self) == (RaftNode {
                peers: final(self).peers,
                disconnected_peers: final(self).disconnected_peers,
                ..*old(self)
            }),
    {
        if self.disconnected_peers.remove(&peer_id) {
            self.peers.insert(peer_id);
        }
        assert(self.links() =~= after_reconnect(old(self).links(), peer_id));
    }

    /// Cuts all connected peers off.
    pub fn disconnect_all_peers(&mut self)
        ensures
            final(self).links() == after_disconnect_all(old(self).links()),
            *final(self) == (RaftNode {
                peers: final(self).peers,
                disconnected_peers: final(self).disconnected_peers,
                ..*old(self)
            }),
    {
        let moved = set_elements(&self.peers);
        move_into(&moved, &mut self.disconnected_peers);
        self.peers.clear();
    }

    /// Brings all peers back that were cut off.
    pub fn reconnect_all_peers(&mut self)
        ensures
            final(self).links() == after_reconnect_all(old(self).links()),
            *final(self) == (RaftNode {
                peers: final(self).peers,
                disconnected_peers: final(self).disconnected_peers,
                ..*old(self)
            }),
    {
        let moved = set_elements(&self.disconnected_peers);
        move_into(&moved, &mut self.peers);
        self.disconnected_peers.clear();
    }

    /// Tells whether this node is the leader.
    pub fn is_leader(&self) -> (r: bool)
        ensures
            r == (self.state@.role is Leader),
    {
        self.state.role == RaftRole::Leader
    }

    /// The leader that this node knows of; itself when it is the leader.
    pub fn get_leader_id(&self) -> (r: Option<u64>)
        ensures
            r == known_leader(self.state@, self.id),
    {
        if self.state.role == RaftRole::Leader {
            Some(self.id)
        } else {
            self.state.leader_id
        }
    }

    /// The entries that are committed and not yet applied, in order; from then on they count as
    /// applied.
    pub fn get_committed_entries(&mut self) -> (r: Vec<LogEntry>)
        ensures
            state::entries_view(r@) == unapplied(old(self).state@),
            final(self).state@ == applied_all(old(self).state@),
            *final(self) == (RaftNode { state: final(self).state, ..*old(self) }),
    {
        let mut entries: Vec<LogEntry> = Vec::new();
        let ghost s = self.state@;
        while self.state.last_applied < self.state.commit_index
            invariant
                self.state@ == (StateView { last_applied: self.state@.last_applied, ..s }),
                s.last_applied <= self.state@.last_applied,
                self.state@.last_applied <= s.commit_index || self.state@.last_applied
                    == s.last_applied,
                state::entries_view(entries@) =~= entries_between(
                    s,
                    s.last_applied as int,
                    self.state@.last_applied as int,
                ),
                *self == (RaftNode { state: self.state, ..*old(self) }),
                s == old(self).state@,
            decreases self.state.commit_index - self.state.last_applied,
        {
            let ghost before = entries@;
            self.state.last_applied = self.state.last_applied + 1;
            match self.state.get_entry(self.state.last_applied) {
                Some(entry) => {
                    let copy = entry.clone();
                    entries.push(copy);
                    assert(state::entries_view(entries@) =~= state::entries_view(before).push(
                        copy@,
                    ));
                },
                None => {},
            }
        }
        entries
    }
}

/// The leader that a node knows of; itself when it is the leader.
pub open spec fn known_leader(s: StateView, id: u64) -> Option<u64> {
    if s.role is Leader {
        Some(id)
    } else {
        s.leader_id
    }
}

/// The entries after index `from`, up to index `to`, that the log holds.
pub open spec fn entries_between(s: StateView, from: int, to: int) -> Seq<EntryView>
    decreases to - from,
{
    if to <= from {
        Seq::empty()
    } else {
        let front = entries_between(s, from, to - 1);
        if s.has_entry(to) {
            front.push(s.entry(to))
        } else {
            front
        }
    }
}

/// The entries that are committed and not yet applied.
pub open spec fn unapplied(s: StateView) -> Seq<EntryView> {
    entries_between(s, s.last_applied as int, s.commit_index as int)
}

/// The state with all committed entries applied.
pub open spec fn applied_all(s: StateView) -> StateView {
    if s.last_applied < s.commit_index {
        StateView { last_applied: s.commit_index, ..s }
    } else {
        s
    }
}

/// Puts all elements into a set.
fn move_into(elements: &Vec<u64>, set: &mut HashSet<u64>)
    ensures
        final(set)@ == old(set)@.union(elements@.to_set()),
{
    for i in 0..elements.len()
        invariant
            set@ =~= old(set)@.union(elements@.take(i as int).to_set()),
    {
        proof {
            lemmas::push_contains(elements@.take(i as int), elements@[i as int]);
            assert(elements@.take(i + 1) =~= elements@.take(i as int).push(elements@[i as int]));
        }
        set.insert(elements[i]);
    }
    assert(elements@.take(elements@.len() as int) =~= elements@);
}

// ---------------------------------------------------------------------------
// Event loop
// ---------------------------------------------------------------------------

/// What the event loop waits for besides messages.
#[derive(Debug, Clone, Copy, PartialEq, Eq, Structural)]
pub enum Wait {
    /// The leader's next heartbeat, in so many milliseconds.
    Heartbeat(u64),
    /// The election timeout, in so many milliseconds.
    Election(u64),
}

/// What came of a message.
#[derive(Debug)]
pub enum MessageOutcome {
    /// A command was appended, or refused.
    Appended(Result<u64, String>),
    /// The election timeout starts anew.
    TimeoutReset,
    /// An election started: its request goes to all connected peers.
    ElectionStarted(Election, VoteRequest),
    /// A transfer started, or was refused.
    Transfer(Result<Transfer, String>),
}

/// At `now` a leader has been silent for the election timeout.
pub open spec fn timed_out(last_heartbeat: Moment, now: Moment, timeout_ms: u64) -> bool {
    now - last_heartbeat >= timeout_ms * 1_000_000 || timeout_ms == 0
}

impl RaftNode {
    /// What to wait for: a leader waits for its next heartbeat, any other node for the election
    /// timeout.
    pub fn next_wait(&self, election_timeout_ms: u64) -> (r: Wait)
        ensures
            r == (if self.state@.role is Leader {
                Wait::Heartbeat(self.config.heartbeat_interval_ms)
            } else {
                Wait::Election(election_timeout_ms)
            }),
    {
        if self.state.role == RaftRole::Leader {
            Wait::Heartbeat(self.config.heartbeat_interval_ms)
        } else {
            Wait::Election(election_timeout_ms)
        }
    }

    /// Tells whether the leader has been silent for the election timeout.
    pub fn election_due(&self, election_timeout_ms: u64, now: Moment) -> (r: bool)
        ensures
            r == timed_out(self.last_heartbeat, now, election_timeout_ms),
    {
        let silent: u128 = if now > self.last_heartbeat {
            now - self.last_heartbeat
        } else {
            0
        };
        silent >= election_timeout_ms as u128 * 1_000_000
    }

    /// Handles a message of the event loop.
    pub fn handle_message(&mut self, message: RaftMessage, now: Moment) -> (r: MessageOutcome)
        requires
            old(self).state@.last_index() < u64::MAX,
            old(self).state@.current_term < u64::MAX,
        ensures
            message matches RaftMessage::AppendCommand { command } ==> {
                &&& r matches MessageOutcome::Appended(result)
                &&& old(self).state@.role is Leader ==> {
                    &&& final(self).state@ == commit_advanced(old(self).state@.appended(command@))
                    &&& result matches Ok(index) && index == final(self).state@.last_index()
                }
                &&& !(old(self).state@.role is Leader) ==> {
                    &&& final(self).state@ == old(self).state@
                    &&& result matches Err(e) && e@ == not_leader_text(old(self).state@.leader_id)
                }
                &&& final(self).last_heartbeat == old(self).last_heartbeat
            },
            message is HeartbeatReceived ==> {
                &&& r is TimeoutReset
                &&& final(self).state@ == old(self).state@
                &&& final(self).last_heartbeat == now
            },
            message is TriggerElection ==> {
                &&& final(self).state@ == old(self).state@.as_candidate(old(self).id)
                &&& r == MessageOutcome::ElectionStarted(
                    Election { term: final(self).state@.current_term, votes: 1, open: true },
                    vote_request(final(self).state@, old(self).id),
                )
                &&& final(self).last_heartbeat == old(self).last_heartbeat
            },
            message matches RaftMessage::TransferLeadership { target_id } ==> {
                &&& r matches MessageOutcome::Transfer(result)
                &&& result is Ok <==> transfer_refusal(
                    old(self).state@,
                    old(self).config.peer_ids(),
                    target_id,
                ) is None
                &&& result matches Ok(transfer) ==> transfer_target(
                    old(self).state@,
                    old(self).config.peer_ids(),
                    target_id,
                    transfer.target,
                ) && transfer.term == old(self).state@.current_term && transfer.leader_last_index
                    == old(self).state@.last_index()
                &&& result matches Err(e) ==> transfer_refusal(
                    old(self).state@,
                    old(self).config.peer_ids(),
                    target_id,
                ) == Some(e@)
                &&& final(self).state@ == old(self).state@
                &&& final(self).last_heartbeat == old(self).last_heartbeat
            },
            final(self).commit_notified == (if final(self).state@.commit_index
                > old(self).state@.commit_index {
                final(self).state@.commit_index
            } else {
                old(self).commit_notified
            }),
            *final(self) == (RaftNode {
                state: final(self).state,
                last_heartbeat: final(self).last_heartbeat,
                commit_notified: final(self).commit_notified,
                ..*old(self)
            }),
    {
        match message {
            RaftMessage::AppendCommand { command } => MessageOutcome::Appended(
                self.handle_append_command(command),
            ),
            RaftMessage::HeartbeatReceived => {
                self.last_heartbeat = now;
                MessageOutcome::TimeoutReset
            },
            RaftMessage::TriggerElection => {
                let (election, request) = self.start_election();
                MessageOutcome::ElectionStarted(election, request)
            },
            RaftMessage::TransferLeadership { target_id } => MessageOutcome::Transfer(
                self.handle_transfer_leadership(target_id),
            ),
        }
    }
}

} // verus!
