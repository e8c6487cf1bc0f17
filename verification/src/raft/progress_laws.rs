//! What a cluster gets done: who is voted for and who wins an election, how the log reaches the
//! peers, when an entry is committed, and what is told of it.

use crate::clock::Moment;
use crate::proto::{
    AppendEntriesResponse, AppendMessage, InstallSnapshotResponse, SnapshotMessage, VoteRequest,
    VoteResponse,
};
use crate::raft::cluster::Event;
use crate::raft::cluster_laws;
use crate::raft::laws;
use crate::raft::node;
use crate::raft::node::{Election, Replication, TimeoutNowOutcome};
use crate::raft::rpc;
use crate::raft::safety;
use crate::raft::state;
use crate::raft::state::{CommandView, EntryView, RaftRole, SnapshotJobView, StateView};
use crate::text;
use vstd::prelude::*;

verus! {

// ---------------------------------------------------------------------------
// Votes
// ---------------------------------------------------------------------------

/// The log of a candidate ends no earlier than the log: its last entry is of a later term, or of
/// the same term and no further to the front.
pub open spec fn ends_no_earlier(index: u64, term: u64, s: StateView) -> bool {
    if s.log.len() > 0 {
        let last = s.log[s.log.len() - 1];
        term > last.term || term == last.term && index >= last.index
    } else {
        match s.snapshot {
            Some(snapshot) => term > snapshot.last_included_term || term
                == snapshot.last_included_term && index >= s.log_offset,
            None => term > 0 || index >= s.log_offset,
        }
    }
}

/// A vote is given exactly to a candidate of no earlier term, in whose term the node has voted for
/// nobody else, and whose log ends no earlier than the node's. It is remembered, and it changes
/// nothing but the vote, the term and the role.
pub proof fn votes_are_given_when_due(s: StateView, req: VoteRequest)
    ensures
        rpc::grants_vote(s, req) <==> {
            &&& req.term >= s.current_term
            &&& req.term > s.current_term || s.voted_for is None || s.voted_for == Some(
                req.candidate_id,
            )
            &&& ends_no_earlier(req.last_log_index, req.last_log_term, s)
        },
        ({
            let t = rpc::after_vote_request(s, req);
            &&& rpc::grants_vote(s, req) ==> t.voted_for == Some(req.candidate_id)
            &&& !rpc::grants_vote(s, req) ==> t.voted_for == (if req.term > s.current_term {
                None
            } else {
                s.voted_for
            })
            &&& t.current_term == (if req.term > s.current_term {
                req.term
            } else {
                s.current_term
            })
            &&& req.term > s.current_term ==> t.role is Follower
            &&& req.term <= s.current_term ==> t.role == s.role
            &&& t.log == s.log && t.log_offset == s.log_offset && t.snapshot == s.snapshot
            &&& t.commit_index == s.commit_index && t.last_applied == s.last_applied
        }),
{
}

/// A candidate stands in the term after its own, votes for itself, and tells where its log ends.
pub proof fn candidates_stand_in_the_next_term(s: StateView, id: u64)
    requires
        s.current_term < u64::MAX,
    ensures
        ({
            let t = s.as_candidate(id);
            let request = node::vote_request(t, id);
            &&& t.role is Candidate
            &&& t.current_term == s.current_term + 1
            &&& t.voted_for == Some(id)
            &&& t.leader_id is None
            &&& t.log == s.log && t.log_offset == s.log_offset && t.snapshot == s.snapshot
            &&& t.commit_index == s.commit_index && t.last_applied == s.last_applied
            &&& request.term == s.current_term + 1
            &&& request.candidate_id == id
            &&& ends_no_earlier(request.last_log_index, request.last_log_term, s)
            &&& s.log.len() > 0 ==> request.last_log_index == s.log[s.log.len() - 1].index
                && request.last_log_term == s.log[s.log.len() - 1].term
            &&& s.log.len() == 0 ==> request.last_log_index == s.log_offset
        }),
{
}

/// A node in the same state as the candidate, or behind it, votes for the candidate.
pub proof fn peers_no_further_vote_for_the_candidate(s: StateView, id: u64, peer: StateView)
    requires
        s.current_term < u64::MAX,
        peer.current_term <= s.current_term,
        peer.log == s.log,
        peer.log_offset == s.log_offset,
        peer.snapshot == s.snapshot,
    ensures
        rpc::grants_vote(peer, node::vote_request(s.as_candidate(id), id)),
{
}

// ---------------------------------------------------------------------------
// Elections
// ---------------------------------------------------------------------------

/// Every vote counts once: a granted vote of no later term adds one, a refusal adds none, and an
/// answer of a later term ends the election.
pub proof fn every_vote_counts(e: Election, resp: VoteResponse)
    requires
        e.open,
        e.votes < u64::MAX,
    ensures
        node::election_after(e, resp).term == e.term,
        resp.term <= e.term && resp.vote_granted ==> node::election_after(e, resp).open
            && node::election_after(e, resp).votes == e.votes + 1,
        resp.term <= e.term && !resp.vote_granted ==> node::election_after(e, resp).open
            && node::election_after(e, resp).votes == e.votes,
        resp.term > e.term ==> !node::election_after(e, resp).open,
{
}

/// A candidate that is still in the term of its election becomes leader exactly with the votes of
/// more than half of the nodes, its peers and itself.
pub proof fn more_than_half_of_the_votes_win(
    s: StateView,
    e: Election,
    id: u64,
    peers: Seq<u64>,
)
    requires
        e.open,
        s.role is Candidate,
        s.current_term == e.term,
        s.last_index() < u64::MAX,
    ensures
        node::after_election(s, e, id, peers).role is Leader <==> 2 * e.votes > peers.len() + 1,
        node::election_won(s, e, peers.len()) <==> 2 * e.votes > peers.len() + 1,
        2 * e.votes > peers.len() + 1 ==> {
            let t = node::after_election(s, e, id, peers);
            &&& t.leader_id == Some(id)
            &&& forall|p: u64| #[trigger]
                t.next_index.contains_key(p) <==> peers.contains(p)
            &&& forall|p: u64| #[trigger]
                t.match_index.contains_key(p) <==> peers.contains(p)
            &&& forall|p: u64| #[trigger]
                t.next_index.contains_key(p) ==> t.next_index[p] == (if s.log.len() > 0 {
                    s.log[s.log.len() - 1].index + 1
                } else {
                    s.log_offset + 1
                })
            &&& forall|p: u64| #[trigger] t.match_index.contains_key(p) ==> t.match_index[p] == 0
        },
        ({
            let t = node::after_election(s, e, id, peers);
            &&& t.current_term == s.current_term
            &&& t.voted_for == s.voted_for
            &&& t.log == s.log && t.log_offset == s.log_offset && t.snapshot == s.snapshot
            &&& t.commit_index == s.commit_index && t.last_applied == s.last_applied
        }),
{
}

/// An election that ended, or that belongs to another term, makes nobody a leader.
pub proof fn stale_elections_change_nothing(
    s: StateView,
    e: Election,
    id: u64,
    peers: Seq<u64>,
)
    requires
        !e.open || !(s.role is Candidate) || s.current_term != e.term,
    ensures
        node::after_election(s, e, id, peers) == s,
        !node::election_won(s, e, peers.len()),
{
}

/// An answer of a later term makes a node a follower in that term that has not voted; any other
/// answer to a request for votes leaves it as it is.
pub proof fn later_terms_are_followed(s: StateView, resp: VoteResponse)
    ensures
        ({
            let t = node::after_vote_response(s, resp);
            &&& resp.term > s.current_term ==> t.role is Follower && t.current_term == resp.term
                && t.voted_for is None && t.log == s.log && t.log_offset == s.log_offset
                && t.snapshot == s.snapshot && t.commit_index == s.commit_index
            &&& resp.term <= s.current_term ==> t == s
        }),
{
}

/// A node waits out its election timeout: it is due once the last sign of life is as old as the
/// timeout, and from then on.
pub proof fn elections_are_due_after_the_timeout(
    last: Moment,
    now: Moment,
    later: Moment,
    timeout_ms: u64,
)
    requires
        last <= now <= later,
    ensures
        node::timed_out(last, now, timeout_ms) <==> now - last >= timeout_ms * 1_000_000,
        node::timed_out(last, now, timeout_ms) ==> node::timed_out(last, later, timeout_ms),
{
}

// ---------------------------------------------------------------------------
// The log of the leader
// ---------------------------------------------------------------------------

/// A command goes to the end of the log, in the leader's term and under the next index; nothing
/// before it changes.
pub proof fn commands_go_to_the_end(s: StateView, command: CommandView)
    requires
        s.last_index() < u64::MAX,
    ensures
        ({
            let t = node::commit_advanced(s.appended(command));
            let last = t.log[t.log.len() - 1];
            &&& t.log.len() == s.log.len() + 1
            &&& last.command == command
            &&& last.term == s.current_term
            &&& last.index == 1 + (if s.log.len() > 0 {
                s.log[s.log.len() - 1].index
            } else {
                s.log_offset
            })
            &&& forall|i: int| 0 <= i < s.log.len() ==> #[trigger] t.log[i] == s.log[i]
            &&& t.log_offset == s.log_offset && t.snapshot == s.snapshot
            &&& t.current_term == s.current_term && t.voted_for == s.voted_for
            &&& t.role == s.role && t.leader_id == s.leader_id
        }),
{
}

/// A leader sends a peer all entries that it is to receive next, up to the end of the log, behind
/// the entry that stands before them, with the leader's term and commit index.
pub proof fn peers_are_sent_what_they_lack(s: StateView, id: u64, peer: u64)
    requires
        laws::sound(s),
        s.next_index.contains_key(peer),
        s.log_offset < s.next_index[peer] <= s.log_offset + s.log.len() + 1,
        node::carries(node::replication_for(s, id, peer), s, peer),
    ensures
        ({
            let message = node::replication_for(s, id, peer);
            let next = s.next_index[peer];
            let req = message->Append_0;
            let entries = rpc::decode_entries(req.entries);
            &&& message is Append
            &&& req.term == s.current_term
            &&& req.leader_id == id
            &&& req.leader_commit == s.commit_index
            &&& req.prev_log_index == next - 1
            &&& s.has_entry(next - 1) ==> req.prev_log_term == s.entry(next - 1).term
            &&& next - 1 == s.log_offset && s.log_offset > 0 ==> req.prev_log_term
                == s.snapshot->0.last_included_term
            &&& entries.len() == s.log_offset + s.log.len() + 1 - next
            &&& forall|i: int|
                0 <= i < entries.len() ==> (#[trigger] entries[i]).index == next + i
                    && entries[i].term == s.entry(next + i).term && entries[i]
                    == rpc::entry_to_ms(s.entry(next + i))
        }),
{
    laws::last_index_counts_all(s);
    laws::requests_carry_the_log(s, id, peer);
    let next = s.next_index[peer];
    let req = node::append_request(s, id, peer);
    let entries = rpc::decode_entries(req.entries);
    assert forall|i: int| 0 <= i < entries.len() implies (#[trigger] entries[i]).index == next + i
        && entries[i].term == s.entry(next + i).term && entries[i] == rpc::entry_to_ms(
        s.entry(next + i),
    ) by {
        assert(s.has_entry(next + i));
        assert(s.log[next + i - s.log_offset - 1].index == next + i);
    }
}

/// A peer that needs entries which are compacted is sent the snapshot instead.
pub proof fn peers_far_behind_are_sent_the_snapshot(s: StateView, id: u64, peer: u64)
    requires
        laws::sound(s),
        s.next_index.contains_key(peer),
        s.next_index[peer] <= s.log_offset,
        s.log_offset > 0,
        node::carries(node::replication_for(s, id, peer), s, peer),
    ensures
        ({
            let message = node::replication_for(s, id, peer);
            let req = message->Snapshot_0;
            &&& message is Snapshot
            &&& req.term == s.current_term
            &&& req.leader_id == id
            &&& req.last_included_index == s.log_offset
            &&& req.last_included_term == s.snapshot->0.last_included_term
            &&& rpc::decode_snapshot(req) == rpc::snapshot_to_ms(s.snapshot->0)
        }),
{
}

// ---------------------------------------------------------------------------
// The logs of the peers
// ---------------------------------------------------------------------------

/// A node takes entries over exactly from a leader of no earlier term with whom it agrees on the
/// entry before them: there is none, it is compacted here, or both have one of the same term.
pub proof fn entries_are_taken_when_logs_agree(s: StateView, req: AppendMessage)
    requires
        laws::sound(s),
    ensures
        rpc::accepts_entries(s, req) <==> {
            &&& req.term >= s.current_term
            &&& {
                ||| req.prev_log_index == 0
                ||| req.prev_log_index < s.log_offset
                ||| req.prev_log_index == s.log_offset && req.prev_log_term
                    == s.snapshot->0.last_included_term
                ||| s.has_entry(req.prev_log_index as int) && s.entry(
                    req.prev_log_index as int,
                ).term == req.prev_log_term
            }
        },
        ({
            let t = rpc::after_append_entries(s, req);
            &&& t.current_term == (if req.term > s.current_term {
                req.term
            } else {
                s.current_term
            })
            &&& req.term >= s.current_term ==> t.role is Follower && t.leader_id == Some(
                req.leader_id,
            )
            &&& req.term < s.current_term ==> t == s
            &&& t.voted_for == (if req.term > s.current_term {
                None
            } else {
                s.voted_for
            })
            &&& t.log_offset == s.log_offset && t.snapshot == s.snapshot
            &&& t.last_applied == s.last_applied
        }),
{
}

/// A node that took a leader's entries over has each of them, and follows the leader's commit
/// index as far as its log reaches.
pub proof fn taken_entries_are_held(s: StateView, req: AppendMessage)
    requires
        laws::sound(s),
        rpc::accepts_entries(s, req),
        ({
            let entries = rpc::decode_entries(req.entries);
            &&& forall|i: int|
                0 <= i < entries.len() ==> (#[trigger] entries[i]).index == req.prev_log_index + 1
                    + i
            &&& req.prev_log_index + entries.len() < u64::MAX
        }),
    ensures
        ({
            let t = rpc::after_append_entries(s, req);
            let entries = rpc::decode_entries(req.entries);
            let reach = t.log_offset + t.log.len();
            &&& forall|i: int|
                0 <= i < entries.len() && req.prev_log_index + 1 + i > s.log_offset
                    ==> t.has_entry(req.prev_log_index + 1 + i) && t.entry(
                    req.prev_log_index + 1 + i,
                ).term == (#[trigger] entries[i]).term
            &&& entries.len() > 0 ==> reach >= req.prev_log_index + entries.len()
            &&& t.commit_index == (if req.leader_commit <= s.commit_index {
                s.commit_index as int
            } else if req.leader_commit <= reach {
                req.leader_commit as int
            } else {
                reach as int
            })
        }),
{
    let f = rpc::follows(s, req.term, req.leader_id);
    let t = rpc::after_append_entries(s, req);
    let entries = rpc::decode_entries(req.entries);
    let fresh = rpc::news(f, entries);
    let k = rpc::news_is_a_suffix(f, entries);
    let prev = req.prev_log_index as int;
    let last = s.log_offset + s.log.len();
    assert(f.log == s.log && f.log_offset == s.log_offset && f.snapshot == s.snapshot);
    if k < entries.len() {
        assert(fresh[0] == entries[k]);
        assert(prev + 1 + k <= last + 1) by {
            if k > 0 {
                assert(rpc::holds_entry(f, entries[k - 1]));
            }
        }
        let from = prev + k - s.log_offset;
        assert(t.log =~= s.log.take(from) + fresh);
    }
    assert forall|i: int| 0 <= i < entries.len() && prev + 1 + i > s.log_offset implies t.has_entry(
        prev + 1 + i,
    ) && t.entry(prev + 1 + i).term == (#[trigger] entries[i]).term by {
        let at = prev + i - s.log_offset;
        if i < k {
            assert(rpc::holds_entry(f, entries[i]));
            assert(t.log[at] == s.log[at]);
        } else {
            assert(t.log[at] == fresh[i - k]);
        }
    }
    if entries.len() > 0 {
        let i = entries.len() - 1;
        assert(entries[i].index == prev + 1 + i);
    }
    assert forall|j: int| 0 <= j < t.log.len() implies (#[trigger] t.log[j]).index == t.log_offset
        + j + 1 by {
        if k < entries.len() {
            let from = prev + k - s.log_offset;
            if j < from {
                assert(t.log[j] == s.log[j]);
            } else {
                assert(t.log[j] == fresh[j - from]);
                assert(fresh[j - from] == entries[k + j - from]);
            }
        }
    }
    if t.log.len() > 0 {
        assert(t.log[t.log.len() - 1].index == t.log_offset + t.log.len());
    }
}

/// A node whose log disagrees with the leader before the entries gives up what disagrees, and
/// keeps what comes before.
pub proof fn disagreement_is_cut_off(s: StateView, req: AppendMessage)
    requires
        laws::sound(s),
        req.term >= s.current_term,
        !rpc::accepts_entries(s, req),
    ensures
        ({
            let t = rpc::after_append_entries(s, req);
            &&& t.log.len() == (if req.prev_log_index <= s.log_offset + s.log.len()
                && req.prev_log_index > s.log_offset {
                req.prev_log_index - s.log_offset - 1
            } else {
                s.log.len() as int
            })
            &&& forall|i: int| 0 <= i < t.log.len() ==> #[trigger] t.log[i] == s.log[i]
            &&& t.commit_index == s.commit_index
        }),
{
}

/// A leader that sent its log to a peer, and is told that the peer took it over, knows that the
/// peer holds all of it; a refusal makes it go one entry back.
pub proof fn answers_tell_how_far_a_peer_is(
    s: StateView,
    peer: u64,
    sent: AppendMessage,
    resp: AppendEntriesResponse,
)
    requires
        s.role is Leader,
        s.next_index.contains_key(peer),
        resp.term <= s.current_term,
        sent.prev_log_index + sent.entries.len() < u64::MAX,
    ensures
        ({
            let t = node::after_append_response(s, peer, sent, resp);
            let end = sent.prev_log_index + sent.entries.len();
            &&& resp.success && sent.term == s.current_term && resp.term == s.current_term ==> {
                &&& t.match_index.contains_key(peer) && t.match_index[peer] == end
                &&& t.next_index.contains_key(peer) && t.next_index[peer] == end + 1
            }
            &&& !resp.success ==> t.match_index == s.match_index && t.next_index[peer] == (
            if s.next_index[peer] > 1 {
                s.next_index[peer] - 1
            } else {
                s.next_index[peer] as int
            }) && t.commit_index == s.commit_index
            &&& forall|other: u64|
                other != peer ==> t.match_index.contains_key(other)
                    == s.match_index.contains_key(other) && #[trigger] t.match_index[other]
                    == s.match_index[other]
            &&& forall|other: u64|
                other != peer ==> #[trigger] t.next_index[other] == s.next_index[other]
            &&& t.log == s.log && t.role == s.role && t.current_term == s.current_term
            &&& t.commit_index >= s.commit_index || !resp.success
        }),
{
    if s.match_index.dom().finite() {
        laws::leader_commits_by_majority(
            node::peer_caught_up(s, peer, (sent.prev_log_index + sent.entries.len()) as u64),
        );
    }
}

/// An answer of a later term makes a leader a follower in that term.
pub proof fn leaders_yield_to_later_terms(
    s: StateView,
    peer: u64,
    sent: AppendMessage,
    resp: AppendEntriesResponse,
    sent_snapshot: SnapshotMessage,
    receipt: InstallSnapshotResponse,
)
    ensures
        resp.term > s.current_term ==> {
            let t = node::after_append_response(s, peer, sent, resp);
            t.role is Follower && t.current_term == resp.term && t.voted_for is None && t.log
                == s.log && t.commit_index == s.commit_index
        },
        receipt.term > s.current_term ==> {
            let t = node::after_snapshot_response(s, peer, sent_snapshot, receipt);
            t.role is Follower && t.current_term == receipt.term && t.voted_for is None && t.log
                == s.log && t.commit_index == s.commit_index
        },
        receipt.term <= s.current_term && sent_snapshot.last_included_index < u64::MAX ==> {
            let t = node::after_snapshot_response(s, peer, sent_snapshot, receipt);
            t.match_index[peer] == sent_snapshot.last_included_index && t.next_index[peer]
                == sent_snapshot.last_included_index + 1 && t.commit_index == s.commit_index
        },
{
}

// ---------------------------------------------------------------------------
// Commits
// ---------------------------------------------------------------------------

/// Terms do not fall along the log and are none later than the node's own, and no peer is known
/// to hold more of the log than there is.
pub open spec fn leader_in_order(s: StateView) -> bool {
    &&& laws::sound(s)
    &&& s.match_index.dom().finite()
    &&& forall|p: u64| #[trigger]
        s.match_index.contains_key(p) ==> s.match_index[p] <= s.log_offset + s.log.len()
    &&& forall|i: int, j: int|
        0 <= i <= j < s.log.len() ==> (#[trigger] s.log[i]).term <= (#[trigger] s.log[j]).term
    &&& forall|i: int| 0 <= i < s.log.len() ==> (#[trigger] s.log[i]).term <= s.current_term
}

/// An entry of the leader's own term that more than half of the nodes hold, the leader counted
/// with its peers, is committed; and the leader moves its commit index to no other entry.
pub proof fn held_by_more_than_half_is_committed(s: StateView, index: u64)
    requires
        leader_in_order(s),
        s.has_entry(index as int),
        s.entry(index as int).term == s.current_term,
    ensures
        ({
            let nodes = s.match_index.dom().len() + 1;
            let holders = s.match_index.dom().filter(
                |p: u64| s.match_index[p] >= index,
            ).len() + 1;
            2 * holders > nodes ==> node::commit_advanced(s).commit_index >= index
        }),
        ({
            let m = node::commit_advanced(s).commit_index;
            let nodes = s.match_index.dom().len() + 1;
            let holders = s.match_index.dom().filter(|p: u64| s.match_index[p] >= m).len() + 1;
            m != s.commit_index ==> m > s.commit_index && s.has_entry(m as int) && s.entry(
                m as int,
            ).term == s.current_term && 2 * holders > nodes
        }),
{
    laws::last_index_counts_all(s);
    laws::leader_commits_by_majority(s);
    if node::nodes_holding(s, index) >= node::majority(s) {
        laws::leader_commits_all_it_may(s, index);
    }
}

/// The same after an answer of a peer: with the peer's success counted, an entry of the leader's
/// own term that more than half of the nodes hold is committed.
pub proof fn answers_commit_what_more_than_half_hold(
    s: StateView,
    peer: u64,
    sent: AppendMessage,
    resp: AppendEntriesResponse,
    index: u64,
)
    requires
        leader_in_order(s),
        s.role is Leader,
        s.match_index.contains_key(peer),
        resp.success,
        sent.term == s.current_term,
        resp.term == s.current_term,
        sent.prev_log_index + sent.entries.len() <= s.log_offset + s.log.len(),
        s.has_entry(index as int),
        s.entry(index as int).term == s.current_term,
    ensures
        ({
            let t = node::after_append_response(s, peer, sent, resp);
            let nodes = s.match_index.dom().len() + 1;
            let holders = t.match_index.dom().filter(
                |p: u64| t.match_index[p] >= index,
            ).len() + 1;
            2 * holders > nodes ==> t.commit_index >= index
        }),
{
    let end = (sent.prev_log_index + sent.entries.len()) as u64;
    let u = node::peer_caught_up(s, peer, end);
    assert(u.match_index.dom() =~= s.match_index.dom());
    assert(u.has_entry(index as int) && u.entry(index as int) == s.entry(index as int));
    held_by_more_than_half_is_committed(u, index);
}

/// In every run: when a leader takes note of a success in its own term, every entry of its term
/// that more than half of the members hold, as far as the leader knows, is committed.
pub proof fn majorities_commit_in_every_run(
    members: Set<u64>,
    events: Seq<Event>,
    n: int,
    index: u64,
)
    requires
        cluster_laws::run(members, events, n, n + 1),
        events[n] is Acknowledge,
        ({
            let reply = events[n]->reply;
            let s = cluster_laws::moment(members, events, n).nodes[events[n]->Acknowledge_node];
            &&& s.role is Leader
            &&& reply.answer.success
            &&& reply.sent.term == s.current_term
            &&& reply.answer.term == s.current_term
            &&& s.has_entry(index as int)
            &&& s.entry(index as int).term == s.current_term
        }),
    ensures
        ({
            let t = cluster_laws::moment(
                members,
                events,
                n + 1,
            ).nodes[events[n]->Acknowledge_node];
            let holders = t.match_index.dom().filter(
                |p: u64| t.match_index[p] >= index,
            ).len() + 1;
            2 * holders > members.len() ==> t.commit_index >= index
        }),
{
    let id = events[n]->Acknowledge_node;
    let reply = events[n]->reply;
    let c = cluster_laws::moment(members, events, n);
    let d = cluster_laws::moment(members, events, n + 1);
    let s = c.nodes[id];
    assert(d == c.after(events[n]) && c.possible(events[n])) by {
        safety::prefix_can_happen(members, events, n + 1);
        assert(events.take(n + 1).drop_last() =~= events.take(n));
        assert(events.take(n + 1).last() == events[n]);
    }
    safety::prefix_can_happen(members, events, n);
    safety::ok_throughout(members, events.take(n));
    safety::leaders_are_in_order(c, id);
    safety::answers_are_within_the_log(c, id, reply);
    answers_commit_what_more_than_half_hold(s, reply.from, reply.sent, reply.answer, index);
}

/// What is told of a command that a leader appended: it is committed, another entry took its
/// place, or neither is known yet.
pub proof fn proposals_are_told_as_they_stand(s: StateView, index: u64, term: u64)
    requires
        s.has_entry(index as int),
    ensures
        s.entry(index as int).term == term && index <= s.commit_index
            ==> node::proposal_state_of(s, index, term) is Committed,
        s.entry(index as int).term == term && index > s.commit_index
            ==> node::proposal_state_of(s, index, term) is Pending,
        s.entry(index as int).term != term ==> node::proposal_state_of(s, index, term) is Lost,
{
}

/// A command that is not in the log any more, and was compacted in the leader's term, is told as
/// committed; one that the log does not reach is told as undecided.
pub proof fn proposals_outside_the_log(s: StateView, index: u64, term: u64)
    requires
        laws::sound(s),
        !s.has_entry(index as int),
    ensures
        0 < index < s.log_offset && s.current_term == term ==> node::proposal_state_of(
            s,
            index,
            term,
        ) is Committed,
        index > s.log_offset ==> node::proposal_state_of(s, index, term) is Pending,
        index == s.log_offset && s.log_offset > 0 ==> (node::proposal_state_of(
            s,
            index,
            term,
        ) is Committed <==> s.snapshot->0.last_included_term == term),
{
}

/// What is committed is applied, all of it and nothing else.
pub proof fn commits_are_applied(s: StateView)
    requires
        laws::sound(s),
    ensures
        node::applied_all(s).last_applied == s.commit_index,
        node::applied_all(s).log == s.log,
        node::applied_all(s).commit_index == s.commit_index,
        node::unapplied(s).len() == s.commit_index - s.last_applied,
        forall|i: int|
            0 <= i < s.commit_index - s.last_applied ==> #[trigger] node::unapplied(s)[i]
                == s.log[s.last_applied + i - s.log_offset],
{
    laws::unapplied_entries_in_order(s);
    assert forall|i: int| 0 <= i < s.commit_index - s.last_applied implies #[trigger] node::unapplied(
        s,
    )[i] == s.log[s.last_applied + i - s.log_offset] by {
        assert(node::unapplied(s)[i] == s.entry(s.last_applied + 1 + i));
    }
}

// ---------------------------------------------------------------------------
// Compaction and snapshots
// ---------------------------------------------------------------------------

/// A log is compacted once it holds more than a thousand entries and the last applied one is
/// among them. Then the applied ones give way to the snapshot, and the others stay.
pub proof fn long_logs_are_compacted(
    s: StateView,
    jobs: Seq<SnapshotJobView>,
    workers: Seq<u64>,
)
    ensures
        s.compactable() <==> s.log.len() > 1000 && s.log_offset < s.last_applied <= s.log_offset
            + s.log.len(),
        s.compactable() ==> {
            let t = s.compacted(jobs, workers);
            let gone = s.last_applied - s.log_offset;
            &&& t.log_offset == s.last_applied
            &&& t.log.len() == s.log.len() - gone
            &&& forall|i: int| 0 <= i < t.log.len() ==> #[trigger] t.log[i] == s.log[gone + i]
            &&& t.snapshot is Some
            &&& t.snapshot->0.last_included_index == s.last_applied
            &&& t.snapshot->0.last_included_term == s.log[gone - 1].term
            &&& t.snapshot->0.jobs == jobs
            &&& t.snapshot->0.workers == workers
            &&& t.commit_index == s.commit_index && t.last_applied == s.last_applied
            &&& t.current_term == s.current_term && t.voted_for == s.voted_for
            &&& t.role == s.role
        },
{
}

/// A snapshot from a leader of no earlier term that reaches past what a node has committed takes
/// the place of the log up to its end: entries behind it stay where the log agrees there. Any
/// other snapshot leaves log and commit index as they are.
pub proof fn snapshots_bring_nodes_forward(s: StateView, req: SnapshotMessage)
    requires
        laws::sound(s),
    ensures
        ({
            let t = rpc::after_install_snapshot(s, req);
            let last = req.last_included_index;
            &&& req.term >= s.current_term && last > s.commit_index ==> {
                &&& t.log_offset == last
                &&& t.commit_index == last
                &&& t.last_applied == last
                &&& t.snapshot == Some(rpc::decode_snapshot(req))
                &&& if s.has_entry(last as int) && s.entry(last as int).term
                    == req.last_included_term {
                    &&& t.log.len() == s.log_offset + s.log.len() - last
                    &&& forall|i: int|
                        0 <= i < t.log.len() ==> #[trigger] t.log[i] == s.log[last - s.log_offset
                            + i]
                } else {
                    t.log.len() == 0
                }
            }
            &&& req.term < s.current_term || last <= s.commit_index ==> t.log == s.log
                && t.log_offset == s.log_offset && t.snapshot == s.snapshot && t.commit_index
                == s.commit_index && t.last_applied == s.last_applied
            &&& t.current_term == (if req.term > s.current_term {
                req.term
            } else {
                s.current_term
            })
            &&& req.term >= s.current_term ==> t.role is Follower && t.leader_id == Some(
                req.leader_id,
            )
        }),
{
}

// ---------------------------------------------------------------------------
// Handing over, and peers
// ---------------------------------------------------------------------------

/// A leader hands over to the peer asked for, or, where none is asked for, to a peer of which no
/// other is known to hold more.
pub proof fn leadership_goes_to_the_right_peer(
    s: StateView,
    peers: Seq<u64>,
    asked: Option<u64>,
    target: u64,
)
    requires
        node::transfer_target(s, peers, asked, target),
    ensures
        asked matches Some(id) ==> target == id && peers.contains(target),
        asked is None ==> s.match_index.contains_key(target) && forall|other: u64| #[trigger]
            s.match_index.contains_key(other) ==> s.match_index[other] <= s.match_index[target],
{
}

/// A hand-over is refused exactly by a node that does not lead, towards a node that is no peer,
/// and without peers to choose from.
pub proof fn hand_overs_are_refused_for_a_reason(
    s: StateView,
    peers: Seq<u64>,
    asked: Option<u64>,
)
    ensures
        node::transfer_refusal(s, peers, asked) is None <==> s.role is Leader && (match asked {
            Some(id) => peers.contains(id),
            None => exists|p: u64| #[trigger] s.match_index.contains_key(p),
        }),
{
    if s.match_index.dom() == Set::<u64>::empty() {
        assert(forall|p: u64| !#[trigger] s.match_index.contains_key(p));
    } else if forall|p: u64| !#[trigger] s.match_index.contains_key(p) {
        assert(s.match_index.dom() =~= Set::<u64>::empty());
    }
}

/// A hand-over is done exactly when the target agreed to stand; then the leader is a follower of
/// the same term with the same log.
pub proof fn hand_overs_end_as_answered(s: StateView, target: u64, outcome: TimeoutNowOutcome)
    ensures
        node::transfer_failure(target, outcome) is None <==> (outcome matches
            TimeoutNowOutcome::Answered(resp) && resp.success),
        s.stepped_down().role is Follower,
        s.stepped_down().current_term == s.current_term,
        s.stepped_down().voted_for == s.voted_for,
        s.stepped_down().log == s.log,
        s.stepped_down().commit_index == s.commit_index,
{
}

/// A peer counts as alive for three seconds after it was last heard of, and one that was never
/// heard of does not.
pub proof fn peers_are_alive_for_three_seconds(seen: Map<u64, Moment>, peer: u64, now: Moment)
    ensures
        !seen.contains_key(peer) ==> !node::peer_alive(seen, peer, now),
        seen.contains_key(peer) && now >= seen[peer] ==> (node::peer_alive(seen, peer, now) <==> now
            - seen[peer] < 3_000_000_000),
{
}

/// A leader knows itself as leader; any other node knows the one it heard of.
pub proof fn leaders_know_themselves(s: StateView, id: u64)
    ensures
        s.role is Leader ==> node::known_leader(s, id) == Some(id),
        !(s.role is Leader) ==> node::known_leader(s, id) == s.leader_id,
{
}

/// A node starts as a follower in term 0 without a vote, a log or a leader.
pub proof fn nodes_start_from_nothing()
    ensures
        ({
            let s = state::initial_state();
            &&& s.role is Follower
            &&& s.current_term == 0
            &&& s.voted_for is None
            &&& s.leader_id is None
            &&& s.log.len() == 0
            &&& s.log_offset == 0
            &&& s.snapshot is None
            &&& s.commit_index == 0
            &&& s.last_applied == 0
        }),
{
}

// ---------------------------------------------------------------------------
// The wire
// ---------------------------------------------------------------------------

/// An entry that is sent arrives as it is, but for parts of moments below the millisecond.
pub proof fn entries_arrive_as_sent(e: EntryView)
    ensures
        rpc::entry_to_ms(e).index == e.index,
        rpc::entry_to_ms(e).term == e.term,
        rpc::encode_entry(e).index == e.index,
        rpc::encode_entry(e).term == e.term,
        match e.command {
            CommandView::SubmitJob { job_id, command, image, created_at } => {
                &&& rpc::entry_to_ms(e).command matches CommandView::SubmitJob {
                    job_id: id,
                    command: text,
                    image: own_image,
                    created_at: at,
                } && id == job_id && text == command && own_image == image && at.seconds
                    == created_at.seconds && at.nanos as int / 1_000_000 == created_at.nanos as int
                    / 1_000_000
            },
            CommandView::UpdateJobStatus { update } => {
                &&& rpc::entry_to_ms(e).command matches CommandView::UpdateJobStatus {
                    update: u,
                } && u.job_id == update.job_id && u.status == update.status && u.executed_by
                    == update.executed_by && u.exit_code == update.exit_code && (u.completed_at
                    is Some <==> update.completed_at is Some)
            },
            CommandView::BatchUpdateJobStatus { updates } => {
                &&& rpc::entry_to_ms(e).command matches CommandView::BatchUpdateJobStatus {
                    updates: us,
                } && us.len() == updates.len() && forall|i: int|
                    0 <= i < us.len() ==> (#[trigger] us[i]).job_id == updates[i].job_id
                        && us[i].status == updates[i].status && us[i].executed_by
                        == updates[i].executed_by && us[i].exit_code == updates[i].exit_code
            },
            _ => rpc::entry_to_ms(e).command == e.command,
        },
{
}

/// In a round a leader sends to every peer that it is connected to, once, what is meant for it;
/// any other node sends nothing.
pub proof fn rounds_reach_every_peer(
    sent: Seq<(u64, Replication)>,
    s: StateView,
    id: u64,
    peers: Set<u64>,
    peer: u64,
)
    requires
        node::replication_round(sent, s, id, peers),
    ensures
        !(s.role is Leader) ==> sent.len() == 0,
        s.role is Leader ==> (peers.contains(peer) <==> exists|i: int|
            0 <= i < sent.len() && (#[trigger] sent[i]).0 == peer),
        forall|i: int, j: int|
            0 <= i < sent.len() && 0 <= j < sent.len() && i != j ==> (#[trigger] sent[i]).0 != (
            #[trigger] sent[j]).0,
        forall|i: int|
            0 <= i < sent.len() ==> (#[trigger] sent[i]).1@ == node::replication_for(
                s,
                id,
                sent[i].0,
            ),
{
}

/// How far a peer is known to hold the log: as far as it was told, and not at all before.
pub proof fn peers_hold_what_they_told(s: StateView, peer: u64)
    ensures
        s.match_index.contains_key(peer) ==> node::matched_up_to(s, peer) == s.match_index[peer],
        !s.match_index.contains_key(peer) ==> node::matched_up_to(s, peer) == 0,
{
}

/// A snapshot stands for the entries up to its end, where there is one.
pub proof fn snapshots_stand_for_what_they_cover(s: StateView, index: u64)
    ensures
        node::covered_by_snapshot(s, index) <==> s.snapshot is Some && index <= s.log_offset,
{
}

/// Users read each role under its own name, and a node that does not lead names whom it follows.
pub proof fn roles_have_their_names(role: RaftRole, id: u64)
    ensures
        role is Follower ==> role.text() == "follower"@,
        role is Candidate ==> role.text() == "candidate"@,
        role is Leader ==> role.text() == "leader"@,
        node::not_leader_text(Some(id)) == "Not leader. Current leader: "@ + ("Some("@
            + text::decimal(id as nat) + ")"@),
        node::not_leader_text(None) == "Not leader. Current leader: "@ + "None"@,
{
}

/// A change of role changes what comes with the role, and nothing else.
pub proof fn roles_change_what_comes_with_them(s: StateView, term: u64, id: u64, peers: Seq<u64>)
    requires
        s.current_term < u64::MAX,
    ensures
        ({
            let t = s.as_follower(term);
            &&& t.role is Follower
            &&& t.current_term == term
            &&& t.voted_for is None
            &&& t.votes_received == 0
            &&& t == (StateView {
                role: t.role,
                current_term: t.current_term,
                voted_for: t.voted_for,
                votes_received: t.votes_received,
                ..s
            })
        }),
        ({
            let t = s.stepped_down();
            &&& t.role is Follower
            &&& t.votes_received == 0
            &&& t == (StateView { role: t.role, votes_received: t.votes_received, ..s })
        }),
        ({
            let t = s.as_candidate(id);
            &&& t.votes_received == 1
            &&& t == (StateView {
                role: t.role,
                current_term: t.current_term,
                voted_for: t.voted_for,
                votes_received: t.votes_received,
                leader_id: t.leader_id,
                ..s
            })
        }),
        ({
            let t = s.as_leader(id, peers);
            &&& t.role is Leader
            &&& t == (StateView {
                role: t.role,
                leader_id: t.leader_id,
                next_index: t.next_index,
                match_index: t.match_index,
                ..s
            })
        }),
{
}

/// An answer of no later term changes nothing on a node that does not lead, and an acceptance from
/// another term changes nothing at all.
pub proof fn stale_answers_change_nothing(
    s: StateView,
    peer: u64,
    sent: AppendMessage,
    resp: AppendEntriesResponse,
)
    requires
        resp.term <= s.current_term,
        !(s.role is Leader) || resp.success && (sent.term != s.current_term || resp.term
            != s.current_term),
    ensures
        node::after_append_response(s, peer, sent, resp) == s,
{
}

/// An election that is lost leaves the candidate as it is, with its votes counted, and a closed
/// election stays as it was.
pub proof fn lost_elections_leave_the_candidate(
    s: StateView,
    e: Election,
    id: u64,
    peers: Seq<u64>,
    resp: VoteResponse,
)
    ensures
        e.open && s.role is Candidate && s.current_term == e.term && 2 * e.votes <= peers.len() + 1
            ==> node::after_election(s, e, id, peers) == (StateView {
            votes_received: e.votes,
            ..s
        }),
        !e.open ==> node::election_after(e, resp) == e,
{
}

/// The log from an index on starts there, or with the first entry that is not compacted, and goes
/// to the end; the log before an index ends there.
pub proof fn logs_are_cut_at_the_index(s: StateView, index: int)
    ensures
        ({
            let from = s.entries_from(index);
            let skipped = if index <= s.log_offset {
                0
            } else {
                index - s.log_offset - 1
            };
            &&& skipped <= s.log.len() ==> from.len() == s.log.len() - skipped
            &&& skipped > s.log.len() ==> from.len() == 0
            &&& forall|i: int|
                0 <= i < from.len() ==> #[trigger] from[i] == s.log[skipped + i]
        }),
        ({
            let before = s.truncated_log(index);
            &&& index <= s.log_offset ==> before.len() == 0
            &&& s.log_offset < index <= s.log_offset + s.log.len() ==> before.len() == index
                - s.log_offset - 1
            &&& index > s.log_offset + s.log.len() ==> before == s.log
            &&& forall|i: int| 0 <= i < before.len() ==> #[trigger] before[i] == s.log[i]
        }),
{
}

} // verus!
