//! A cluster of nodes that exchange messages: the events that can happen in it, and what each of
//! them changes. Messages may be lost, delayed, repeated and reordered; nodes may restart. A
//! candidate sends each peer one request for its vote and counts one answer to it.

use crate::proto::{
    AppendEntriesResponse, AppendMessage, InstallSnapshotResponse, SnapshotMessage, VoteRequest,
    VoteResponse,
};
use crate::raft::laws;
use crate::raft::node;
use crate::raft::node::{Election, ReplicationMessage};
use crate::raft::rpc;
use crate::raft::state;
use crate::raft::state::{CommandView, EntryView, SnapshotJobView, StateView};
use crate::raft::storage::PersistedState;
use vstd::prelude::*;

verus! {

/// The request of a candidate, and the whole log that the candidate stood with.
pub struct Bid {
    pub request: VoteRequest,
    pub log: Seq<EntryView>,
}

/// An election as the candidate sees it, and the nodes whose votes it has counted.
pub struct Poll {
    pub election: Election,
    pub voters: Set<u64>,
}

/// A leadership: who leads, by whose votes, the length of the log at the election, and the whole
/// log since then.
pub struct Reign {
    pub leader: u64,
    pub voters: Set<u64>,
    pub base: nat,
    pub log: Seq<EntryView>,
}

/// The answer of `voter` to the request of `candidate` in `term`.
pub struct VoteReply {
    pub term: u64,
    pub candidate: u64,
    pub voter: u64,
    pub answer: VoteResponse,
}

/// The answer of `from` to entries that were sent to it.
pub struct AppendReply {
    pub from: u64,
    pub sent: AppendMessage,
    pub answer: AppendEntriesResponse,
}

/// The answer of `from` to a snapshot that was sent to it.
pub struct SnapshotReply {
    pub from: u64,
    pub sent: SnapshotMessage,
    pub answer: InstallSnapshotResponse,
}

/// The nodes of a cluster, the messages that are under way, and a record of what happened.
pub struct Cluster {
    pub members: Set<u64>,
    pub nodes: Map<u64, StateView>,
    /// The whole log of each node, what is compacted too, to the precision of the wire.
    pub logs: Map<u64, Seq<EntryView>>,
    /// Requests for votes, by term and candidate.
    pub bids: Map<(u64, u64), Bid>,
    /// Votes given, by term and voter.
    pub votes: Map<(u64, u64), u64>,
    pub polls: Map<u64, Poll>,
    /// Elections won, by term.
    pub reigns: Map<u64, Reign>,
    /// How far each node has acknowledged the log of the leader of a term.
    pub acks: Map<(u64, u64), nat>,
    pub vote_replies: Set<VoteReply>,
    pub appends: Set<AppendMessage>,
    pub append_replies: Set<AppendReply>,
    pub snapshots: Set<SnapshotMessage>,
    pub snapshot_replies: Set<SnapshotReply>,
}

/// Something that happens in a cluster.
pub enum Event {
    /// A node stands for election.
    Stand { node: u64 },
    /// A node handles a request for its vote.
    Vote { node: u64, term: u64, candidate: u64 },
    /// A candidate takes note of an answer.
    Count { node: u64, ballot: VoteReply },
    /// A candidate closes its election.
    Close { node: u64, peers: Seq<u64> },
    /// A command is proposed to a node.
    Propose { node: u64, command: CommandView },
    /// A leader sends entries or its snapshot to a peer.
    Send { node: u64, peer: u64 },
    /// A node handles entries.
    Append { node: u64, request: AppendMessage },
    /// A node takes note of an answer to entries.
    Acknowledge { node: u64, reply: AppendReply },
    /// A node handles a snapshot.
    Install { node: u64, snapshot: SnapshotMessage },
    /// A node takes note of an answer to a snapshot.
    Installed { node: u64, receipt: SnapshotReply },
    /// A node applies what is committed.
    Apply { node: u64 },
    /// A node compacts its log.
    Compact { node: u64, jobs: Seq<SnapshotJobView>, workers: Seq<u64> },
    /// A node steps down within its term.
    StepDown { node: u64 },
    /// A node restarts with what it stored.
    Restart { node: u64, stored: PersistedState },
}

/// The members of a cluster: at least one, and no more than votes can be counted of.
pub open spec fn can_be_members(members: Set<u64>) -> bool {
    members.finite() && 0 < members.len() < u64::MAX
}

/// A cluster that has just started.
pub open spec fn started(members: Set<u64>) -> Cluster {
    Cluster {
        members,
        nodes: Map::new(|id: u64| members.contains(id), |id: u64| state::initial_state()),
        logs: Map::new(|id: u64| members.contains(id), |id: u64| Seq::<EntryView>::empty()),
        bids: Map::empty(),
        votes: Map::empty(),
        polls: Map::empty(),
        reigns: Map::empty(),
        acks: Map::empty(),
        vote_replies: Set::empty(),
        appends: Set::empty(),
        append_replies: Set::empty(),
        snapshots: Set::empty(),
        snapshot_replies: Set::empty(),
    }
}

impl Cluster {
    /// How far a node has acknowledged the log of the leader of a term.
    pub open spec fn acked(self, term: u64, id: u64) -> nat {
        if self.acks.contains_key((term, id)) {
            self.acks[(term, id)]
        } else {
            0
        }
    }

    /// What has been acknowledged after a node acknowledged up to `end`.
    pub open spec fn acks_with(self, term: u64, id: u64, end: nat) -> Map<(u64, u64), nat> {
        if end > self.acked(term, id) {
            self.acks.insert((term, id), end)
        } else {
            self.acks
        }
    }

    /// The event can happen.
    pub open spec fn possible(self, event: Event) -> bool {
        match event {
            Event::Stand { node } => {
                &&& self.members.contains(node)
                &&& self.nodes[node].current_term < u64::MAX
            },
            Event::Vote { node, term, candidate } => {
                &&& self.members.contains(node)
                &&& self.bids.contains_key((term, candidate))
            },
            Event::Count { node, ballot } => {
                &&& self.members.contains(node)
                &&& self.polls.contains_key(node)
                &&& self.vote_replies.contains(ballot)
                &&& ballot.candidate == node
                &&& ballot.term == self.polls[node].election.term
                &&& !self.polls[node].voters.contains(ballot.voter)
            },
            Event::Close { node, peers } => {
                &&& self.members.contains(node)
                &&& self.polls.contains_key(node)
                &&& peers.no_duplicates()
                &&& peers.to_set() == self.members.remove(node)
            },
            Event::Propose { node, command } => {
                &&& self.members.contains(node)
                &&& self.nodes[node].last_index() + 1 < u64::MAX
            },
            Event::Send { node, peer } => {
                let s = self.nodes[node];
                &&& self.members.contains(node)
                &&& s.role is Leader
                &&& s.next_index.contains_key(peer)
                &&& node::carries(node::replication_for(s, node, peer), s, peer)
            },
            Event::Append { node, request } => {
                &&& self.members.contains(node)
                &&& node != request.leader_id
                &&& self.appends.contains(request)
            },
            Event::Acknowledge { node, reply } => {
                &&& self.members.contains(node)
                &&& node != reply.from
                &&& self.append_replies.contains(reply)
            },
            Event::Install { node, snapshot } => {
                &&& self.members.contains(node)
                &&& node != snapshot.leader_id
                &&& self.snapshots.contains(snapshot)
            },
            Event::Installed { node, receipt } => {
                &&& self.members.contains(node)
                &&& node != receipt.from
                &&& self.snapshot_replies.contains(receipt)
            },
            Event::Apply { node } => self.members.contains(node),
            Event::Compact { node, jobs, workers } => {
                &&& self.members.contains(node)
                &&& self.nodes[node].compactable()
            },
            Event::StepDown { node } => self.members.contains(node),
            Event::Restart { node, stored } => {
                &&& self.members.contains(node)
                &&& laws::stored(self.nodes[node], stored)
            },
        }
    }

    /// The cluster with another state of a node.
    pub open spec fn with_node(self, id: u64, s: StateView) -> Cluster {
        Cluster { nodes: self.nodes.insert(id, s), ..self }
    }

    /// After a node stood for election.
    pub open spec fn after_stand(self, id: u64) -> Cluster {
        let t = self.nodes[id].as_candidate(id);
        Cluster {
            bids: self.bids.insert(
                (t.current_term, id),
                Bid { request: node::vote_request(t, id), log: self.logs[id] },
            ),
            votes: self.votes.insert((t.current_term, id), id),
            polls: self.polls.insert(
                id,
                Poll {
                    election: Election { term: t.current_term, votes: 1, open: true },
                    voters: set![id],
                },
            ),
            ..self.with_node(id, t)
        }
    }

    /// After a node handled a request for its vote.
    pub open spec fn after_vote(self, id: u64, term: u64, candidate: u64) -> Cluster {
        let request = self.bids[(term, candidate)].request;
        let s = self.nodes[id];
        let t = rpc::after_vote_request(s, request);
        let granted = rpc::grants_vote(s, request);
        Cluster {
            votes: if granted {
                self.votes.insert((term, id), candidate)
            } else {
                self.votes
            },
            vote_replies: self.vote_replies.insert(
                VoteReply {
                    term,
                    candidate,
                    voter: id,
                    answer: VoteResponse { term: t.current_term, vote_granted: granted },
                },
            ),
            ..self.with_node(id, t)
        }
    }

    /// After a candidate took note of an answer.
    pub open spec fn after_count(self, id: u64, reply: VoteReply) -> Cluster {
        let poll = self.polls[id];
        let election = node::election_after(poll.election, reply.answer);
        Cluster {
            polls: self.polls.insert(
                id,
                Poll {
                    election,
                    voters: if election.votes != poll.election.votes {
                        poll.voters.insert(reply.voter)
                    } else {
                        poll.voters
                    },
                },
            ),
            ..self.with_node(id, node::after_vote_response(self.nodes[id], reply.answer))
        }
    }

    /// After a candidate closed its election.
    pub open spec fn after_close(self, id: u64, peers: Seq<u64>) -> Cluster {
        let s = self.nodes[id];
        let poll = self.polls[id];
        Cluster {
            reigns: if node::election_won(s, poll.election, peers.len()) {
                self.reigns.insert(
                    poll.election.term,
                    Reign {
                        leader: id,
                        voters: poll.voters,
                        base: self.logs[id].len(),
                        log: self.logs[id],
                    },
                )
            } else {
                self.reigns
            },
            ..self.with_node(id, node::after_election(s, poll.election, id, peers))
        }
    }

    /// After a command was proposed to a node.
    pub open spec fn after_propose(self, id: u64, command: CommandView) -> Cluster {
        let s = self.nodes[id];
        if s.role is Leader {
            let t = node::commit_advanced(s.appended(command));
            let log = self.logs[id].push(rpc::entry_to_ms(t.log.last()));
            Cluster {
                logs: self.logs.insert(id, log),
                reigns: self.reigns.insert(
                    s.current_term,
                    Reign { log, ..self.reigns[s.current_term] },
                ),
                ..self.with_node(id, t)
            }
        } else {
            self
        }
    }

    /// After a leader sent entries or its snapshot to a peer.
    pub open spec fn after_send(self, id: u64, peer: u64) -> Cluster {
        match node::replication_for(self.nodes[id], id, peer) {
            ReplicationMessage::Append(request) => Cluster {
                appends: self.appends.insert(request),
                ..self
            },
            ReplicationMessage::Snapshot(request) => Cluster {
                snapshots: self.snapshots.insert(request),
                ..self
            },
        }
    }

    /// The whole log of a node after it handled entries.
    pub open spec fn log_after_append(self, id: u64, request: AppendMessage) -> Seq<EntryView> {
        let s = self.nodes[id];
        if rpc::accepts_entries(s, request) {
            if rpc::news(s, rpc::decode_entries(request.entries)).len() > 0 {
                self.reigns[request.term].log.take(rpc::end_of(request) as int)
            } else {
                self.logs[id]
            }
        } else if request.term >= s.current_term && s.has_entry(request.prev_log_index as int) {
            self.logs[id].take(request.prev_log_index - 1)
        } else {
            self.logs[id]
        }
    }

    /// After a node handled entries.
    pub open spec fn after_append(self, id: u64, request: AppendMessage) -> Cluster {
        let s = self.nodes[id];
        let t = rpc::after_append_entries(s, request);
        let accepted = rpc::accepts_entries(s, request);
        Cluster {
            logs: self.logs.insert(id, self.log_after_append(id, request)),
            acks: if accepted {
                self.acks_with(request.term, id, rpc::end_of(request))
            } else {
                self.acks
            },
            append_replies: self.append_replies.insert(
                AppendReply {
                    from: id,
                    sent: request,
                    answer: AppendEntriesResponse {
                        term: t.current_term,
                        success: accepted,
                        match_index: t.last_index(),
                    },
                },
            ),
            ..self.with_node(id, t)
        }
    }

    /// The whole log of a node after it handled a snapshot.
    pub open spec fn log_after_install(self, id: u64, request: SnapshotMessage) -> Seq<EntryView> {
        let s = self.nodes[id];
        let log = self.logs[id];
        let last = request.last_included_index as int;
        if !rpc::snapshot_is_news(s, request) {
            log
        } else if s.has_entry(last) && s.entry(last).term == request.last_included_term {
            log
        } else {
            self.reigns[request.term].log.take(last)
        }
    }

    /// After a node handled a snapshot.
    pub open spec fn after_install(self, id: u64, request: SnapshotMessage) -> Cluster {
        let s = self.nodes[id];
        let t = rpc::after_install_snapshot(s, request);
        Cluster {
            logs: self.logs.insert(id, self.log_after_install(id, request)),
            acks: if request.term >= s.current_term {
                self.acks_with(request.term, id, request.last_included_index as nat)
            } else {
                self.acks
            },
            snapshot_replies: self.snapshot_replies.insert(
                SnapshotReply {
                    from: id,
                    sent: request,
                    answer: InstallSnapshotResponse { term: t.current_term },
                },
            ),
            ..self.with_node(id, t)
        }
    }

    /// The cluster after an event.
    pub open spec fn after(self, event: Event) -> Cluster {
        match event {
            Event::Stand { node } => self.after_stand(node),
            Event::Vote { node, term, candidate } => self.after_vote(node, term, candidate),
            Event::Count { node, ballot } => self.after_count(node, ballot),
            Event::Close { node, peers } => self.after_close(node, peers),
            Event::Propose { node, command } => self.after_propose(node, command),
            Event::Send { node, peer } => self.after_send(node, peer),
            Event::Append { node, request } => self.after_append(node, request),
            Event::Acknowledge { node, reply } => self.with_node(
                node,
                node::after_append_response(self.nodes[node], reply.from, reply.sent, reply.answer),
            ),
            Event::Install { node, snapshot } => self.after_install(node, snapshot),
            Event::Installed { node, receipt } => self.with_node(
                node,
                node::after_snapshot_response(
                    self.nodes[node],
                    receipt.from,
                    receipt.sent,
                    receipt.answer,
                ),
            ),
            Event::Apply { node } => self.with_node(node, node::applied_all(self.nodes[node])),
            Event::Compact { node, jobs, workers } => self.with_node(
                node,
                self.nodes[node].compacted(jobs, workers),
            ),
            Event::StepDown { node } => self.with_node(node, self.nodes[node].stepped_down()),
            Event::Restart { node, stored } => self.with_node(node, node::restored_state(stored)),
        }
    }
}

/// The cluster after all these events, one after the other.
pub open spec fn cluster_after(members: Set<u64>, events: Seq<Event>) -> Cluster
    decreases events.len(),
{
    if events.len() == 0 {
        started(members)
    } else {
        cluster_after(members, events.drop_last()).after(events.last())
    }
}

/// The events can happen one after the other.
pub open spec fn can_happen(members: Set<u64>, events: Seq<Event>) -> bool
    decreases events.len(),
{
    if events.len() == 0 {
        true
    } else {
        &&& can_happen(members, events.drop_last())
        &&& cluster_after(members, events.drop_last()).possible(events.last())
    }
}

} // verus!
