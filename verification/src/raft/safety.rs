//! The safety of a cluster: at most one leader in a term, and what is committed stays.

use crate::proto::{AppendMessage, EntryMessage, SnapshotMessage, VoteRequest};
use crate::raft::cluster;
use crate::raft::cluster::{AppendReply, Cluster, Event, Reign, SnapshotReply, VoteReply};
use crate::raft::laws;
use crate::raft::node;
use crate::raft::progress_laws;
use crate::raft::rpc;
use crate::raft::state;
use crate::raft::state::{CommandView, EntryView, SnapshotJobView, StateView};
use crate::raft::storage::PersistedState;
use vstd::prelude::*;

verus! {

// ---------------------------------------------------------------------------
// Logs
// ---------------------------------------------------------------------------

/// Both logs hold the same `k` entries at first.
#[verifier::opaque]
pub open spec fn shares(a: Seq<EntryView>, b: Seq<EntryView>, k: int) -> bool {
    &&& 0 <= k <= a.len()
    &&& k <= b.len()
    &&& forall|i: int|
        #![trigger a[i]]
        #![trigger b[i]]
        0 <= i < k ==> a[i] == b[i]
}

pub(crate) proof fn share_bounds(a: Seq<EntryView>, b: Seq<EntryView>, k: int)
    requires
        shares(a, b, k),
    ensures
        0 <= k <= a.len(),
        k <= b.len(),
{
    reveal(shares);
}

pub(crate) proof fn share_at(a: Seq<EntryView>, b: Seq<EntryView>, k: int, i: int)
    requires
        shares(a, b, k),
        0 <= i < k,
    ensures
        a[i] == b[i],
        k <= a.len(),
        k <= b.len(),
{
    reveal(shares);
}

pub(crate) proof fn share_less(a: Seq<EntryView>, b: Seq<EntryView>, k: int, j: int)
    requires
        shares(a, b, k),
        0 <= j <= k,
    ensures
        shares(a, b, j),
        shares(b, a, j),
{
    reveal(shares);
}

pub(crate) proof fn share_swap(a: Seq<EntryView>, b: Seq<EntryView>, k: int)
    requires
        shares(a, b, k),
    ensures
        shares(b, a, k),
{
    reveal(shares);
}

pub(crate) proof fn share_through(a: Seq<EntryView>, b: Seq<EntryView>, c: Seq<EntryView>, k: int, j: int)
    requires
        shares(a, b, k),
        shares(b, c, j),
    ensures
        k <= j ==> shares(a, c, k),
        j <= k ==> shares(a, c, j),
{
    reveal(shares);
    assert forall|i: int|
        #![trigger a[i]]
        #![trigger c[i]]
        0 <= i < k && i < j implies a[i] == c[i] by {
        assert(a[i] == b[i]);
        assert(b[i] == c[i]);
    }
}

pub(crate) proof fn share_take(a: Seq<EntryView>, n: int, k: int)
    requires
        0 <= k <= n <= a.len(),
    ensures
        shares(a, a.take(n), k),
        shares(a.take(n), a, k),
        shares(a, a, k),
{
    reveal(shares);
}

pub(crate) proof fn share_none(a: Seq<EntryView>, b: Seq<EntryView>)
    ensures
        shares(a, b, 0),
{
    reveal(shares);
}

/// The term of the last entry, 0 without entries.
pub open spec fn last_term_of(log: Seq<EntryView>) -> u64 {
    if log.len() > 0 {
        log.last().term
    } else {
        0
    }
}

/// The terms of the entries do not fall.
#[verifier::opaque]
pub open spec fn rising(log: Seq<EntryView>) -> bool {
    forall|i: int, j: int| 0 <= i <= j < log.len() ==> (#[trigger] log[i]).term <= (
    #[trigger] log[j]).term
}

/// The entries are numbered from 1 on.
#[verifier::opaque]
pub open spec fn numbered(log: Seq<EntryView>) -> bool {
    &&& log.len() < u64::MAX
    &&& forall|i: int| 0 <= i < log.len() ==> (#[trigger] log[i]).index == i + 1
}

/// The state holds this log: what is not compacted as it stands, of the rest the last term.
#[verifier::opaque]
pub open spec fn covers(s: StateView, log: Seq<EntryView>) -> bool {
    &&& log.len() == s.log_offset + s.log.len()
    &&& forall|i: int|
        0 <= i < s.log.len() ==> rpc::entry_to_ms(#[trigger] s.log[i]) == log[s.log_offset + i]
    &&& s.log_offset > 0 ==> s.snapshot is Some && s.snapshot->0.last_included_term
        == log[s.log_offset - 1].term
}

/// Last index and last term are those of the whole log.
pub(crate) proof fn covered_end(s: StateView, log: Seq<EntryView>)
    requires
        covers(s, log),
        laws::sound(s),
    ensures
        s.last_index() == log.len(),
        s.last_term() == last_term_of(log),
{
    reveal(covers);
    laws::last_index_counts_all(s);
    if s.log.len() > 0 {
        assert(rpc::entry_to_ms(s.log[s.log.len() - 1]) == log[s.log_offset + s.log.len() - 1]);
    }
}

/// The entry at an index is that of the whole log.
pub(crate) proof fn covered_entry(s: StateView, log: Seq<EntryView>, index: int)
    requires
        covers(s, log),
        s.has_entry(index),
    ensures
        1 <= index <= log.len(),
        rpc::entry_to_ms(s.entry(index)) == log[index - 1],
        s.entry(index).term == log[index - 1].term,
        log.len() == s.log_offset + s.log.len(),
{
    reveal(covers);
    assert(rpc::entry_to_ms(s.log[index - s.log_offset - 1]) == log[index - 1]);
}

// ---------------------------------------------------------------------------
// Majorities
// ---------------------------------------------------------------------------

/// More than half of the members.
pub open spec fn is_quorum(members: Set<u64>, quorum: Set<u64>) -> bool {
    &&& quorum.subset_of(members)
    &&& quorum.len() >= members.len() / 2 + 1
}

/// Two majorities have a member in common.
proof fn quorums_meet(members: Set<u64>, a: Set<u64>, b: Set<u64>) -> (w: u64)
    requires
        members.finite(),
        is_quorum(members, a),
        is_quorum(members, b),
    ensures
        a.contains(w),
        b.contains(w),
        members.contains(w),
{
    vstd::set_lib::lemma_len_subset(a, members);
    vstd::set_lib::lemma_len_subset(b, members);
    if a.disjoint(b) {
        vstd::set_lib::lemma_set_disjoint_lens(a, b);
        vstd::set_lib::lemma_len_subset(a + b, members);
        assert(false);
    }
    let w = choose|w: u64| a.contains(w) && b.contains(w);
    assert(a.contains(w) && b.contains(w));
    w
}

// ---------------------------------------------------------------------------
// What holds of a cluster
// ---------------------------------------------------------------------------

impl Cluster {
    /// The term of a node.
    pub open spec fn term(self, id: u64) -> u64 {
        self.nodes[id].current_term
    }

    /// The whole log of the leader of a term.
    pub open spec fn lead(self, term: u64) -> Seq<EntryView> {
        self.reigns[term].log
    }

    /// How far a node has the log of the leader of a term, or had it in that term.
    pub open spec fn hold(self, term: u64, id: u64) -> nat {
        if self.reigns[term].leader == id {
            self.lead(term).len()
        } else {
            self.acked(term, id)
        }
    }

    /// The `k`-th entry of the leader of a term is of that term.
    pub open spec fn own(self, term: u64, k: int) -> bool {
        1 <= k <= self.lead(term).len() && self.lead(term)[k - 1].term == term
    }

    /// The quorum holds `k` entries of the leader of a term.
    pub open spec fn held_by(self, term: u64, k: int, quorum: Set<u64>) -> bool {
        &&& is_quorum(self.members, quorum)
        &&& forall|w: u64| #[trigger] quorum.contains(w) ==> self.hold(term, w) >= k
    }

    /// A majority holds `k` entries of the leader of a term, the last of them of that term.
    pub open spec fn safe(self, term: u64, k: int) -> bool {
        &&& self.reigns.contains_key(term)
        &&& self.own(term, k)
        &&& exists|quorum: Set<u64>| #[trigger] self.held_by(term, k, quorum)
    }

    /// The quorum has left the term behind without `k` entries of its leader.
    pub open spec fn missed_by(self, term: u64, k: int, quorum: Set<u64>) -> bool {
        &&& is_quorum(self.members, quorum)
        &&& forall|w: u64| #[trigger]
            quorum.contains(w) ==> self.term(w) > term && self.hold(term, w) < k
    }

    /// No majority will ever hold `k` entries of the leader of a term.
    pub open spec fn blocked(self, term: u64, k: int) -> bool {
        exists|quorum: Set<u64>| #[trigger] self.missed_by(term, k, quorum)
    }

    /// The leader of the later term does not have `k` entries of the earlier one.
    pub open spec fn overrides(self, earlier: u64, later: u64, k: int) -> bool {
        &&& self.reigns.contains_key(later)
        &&& earlier < later
        &&& !shares(self.lead(earlier), self.lead(later), k)
    }

    /// Every entry is one of the leader of its term, and so is all that comes before it.
    #[verifier::opaque]
    pub open spec fn rooted(self, log: Seq<EntryView>) -> bool {
        forall|i: int|
            0 <= i < log.len() ==> self.reigns.contains_key((#[trigger] log[i]).term) && shares(
                self.lead(log[i].term),
                log,
                i + 1,
            )
    }

    /// The node has `k` entries of the leader of a term, or followed a later leader without them.
    pub open spec fn keeps(self, term: u64, id: u64, k: int) -> bool {
        ||| shares(self.lead(term), self.logs[id], k)
        ||| exists|later: u64| #[trigger]
            self.overrides(term, later, k) && later <= self.term(id)
    }

    /// The later leader has `k` entries of the earlier one, or they will never be committed.
    pub open spec fn inherits(self, earlier: u64, later: u64, k: int) -> bool {
        ||| shares(self.lead(earlier), self.lead(later), k)
        ||| self.blocked(earlier, k)
    }

    /// The candidate that a node voted for stood with `k` entries of an earlier leader, or they
    /// will never be committed.
    pub open spec fn vouches(self, earlier: u64, later: u64, voter: u64, k: int) -> bool {
        ||| shares(self.lead(earlier), self.bids[(later, self.votes[(later, voter)])].log, k)
        ||| self.blocked(earlier, k)
    }

    /// `m` entries of the leader of a term are committed: a majority holds them by way of
    /// `from`, the leader of the same or an earlier term.
    pub open spec fn settled_by(self, term: u64, m: int, from: u64, k: int) -> bool {
        &&& self.safe(from, k)
        &&& from <= term
        &&& m <= k
        &&& shares(self.lead(from), self.lead(term), m)
    }

    /// `m` entries of the leader of a term are committed.
    pub open spec fn settled(self, term: u64, m: int) -> bool {
        &&& self.reigns.contains_key(term)
        &&& exists|from: u64, k: int| #[trigger] self.settled_by(term, m, from, k)
    }

    /// The node has `m` committed entries by way of the leader of a term.
    pub open spec fn committed_by(self, id: u64, m: int, term: u64) -> bool {
        &&& term <= self.term(id)
        &&& self.settled(term, m)
        &&& m <= self.hold(term, id)
        &&& shares(self.lead(term), self.logs[id], m)
    }

    pub open spec fn committed(self, id: u64, m: int) -> bool {
        m == 0 || exists|term: u64| #[trigger] self.committed_by(id, m, term)
    }

    // --- Each node, election, vote and message -----------------------------

    pub open spec fn log_ok(self, id: u64) -> bool {
        let s = self.nodes[id];
        let log = self.logs[id];
        &&& laws::sound(s)
        &&& covers(s, log)
        &&& numbered(log)
        &&& self.rooted(log)
        &&& forall|i: int| 0 <= i < log.len() ==> (#[trigger] log[i]).term <= s.current_term
    }

    pub open spec fn poll_ok(self, id: u64) -> bool {
        let poll = self.polls[id];
        let term = poll.election.term;
        self.polls.contains_key(id) ==> {
            &&& poll.voters.subset_of(self.members)
            &&& poll.election.votes == poll.voters.len()
            &&& forall|w: u64| #[trigger]
                poll.voters.contains(w) ==> self.votes.contains_key((term, w)) && self.votes[(
                    term,
                    w,
                )] == id
            &&& self.bids.contains_key((term, id))
            &&& term <= self.term(id)
        }
    }

    pub open spec fn candidate_ok(self, id: u64) -> bool {
        self.nodes[id].role is Candidate ==> {
            &&& self.polls.contains_key(id)
            &&& self.polls[id].election.term == self.term(id)
            &&& self.logs[id] == self.bids[(self.term(id), id)].log
            &&& self.reigns.contains_key(self.term(id)) ==> self.reigns[self.term(id)].leader != id
        }
    }

    pub open spec fn leader_ok(self, id: u64) -> bool {
        let s = self.nodes[id];
        let term = s.current_term;
        s.role is Leader ==> {
            &&& self.reigns.contains_key(term)
            &&& self.reigns[term].leader == id
            &&& self.logs[id] == self.lead(term)
            &&& s.match_index.dom() == self.members.remove(id)
            &&& s.next_index.dom() == self.members.remove(id)
            &&& forall|p: u64| #[trigger]
                s.match_index.contains_key(p) ==> self.matched(term, p, s.match_index[p] as int)
            &&& forall|p: u64| #[trigger]
                s.next_index.contains_key(p) ==> 1 <= s.next_index[p] <= self.lead(term).len() + 1
        }
    }

    /// What a leader knows of a peer: the peer holds `k` entries of the leader, or these are
    /// committed.
    pub open spec fn matched(self, term: u64, p: u64, k: int) -> bool {
        k <= self.hold(term, p) || self.settled(term, k)
    }

    /// A node that leads in state `t` led before in the same term, and what it knows of its peers
    /// is in order.
    pub open spec fn leads_on(self, id: u64, t: StateView) -> bool {
        t.role is Leader ==> {
            &&& self.nodes[id].role is Leader
            &&& t.current_term == self.term(id)
            &&& t.match_index.dom() == self.members.remove(id)
            &&& t.next_index.dom() == self.members.remove(id)
            &&& forall|p: u64| #[trigger]
                t.match_index.contains_key(p) ==> self.matched(
                    t.current_term,
                    p,
                    t.match_index[p] as int,
                )
            &&& forall|p: u64| #[trigger]
                t.next_index.contains_key(p) ==> 1 <= t.next_index[p] <= self.lead(
                    t.current_term,
                ).len() + 1
        }
    }

    pub open spec fn hold_ok(self, id: u64) -> bool {
        forall|term: u64, k: int|
            self.reigns.contains_key(term) && 0 <= k <= self.hold(term, id) ==> #[trigger] self.keeps(
                term,
                id,
                k,
            )
    }

    pub open spec fn node_ok(self, id: u64) -> bool {
        &&& self.log_ok(id)
        &&& self.poll_ok(id)
        &&& self.candidate_ok(id)
        &&& self.leader_ok(id)
        &&& self.hold_ok(id)
        &&& self.committed(id, self.nodes[id].commit_index as int)
    }

    pub open spec fn reign_ok(self, term: u64) -> bool {
        let reign = self.reigns[term];
        &&& self.members.contains(reign.leader)
        &&& term <= self.term(reign.leader)
        &&& is_quorum(self.members, reign.voters)
        &&& forall|w: u64| #[trigger]
            reign.voters.contains(w) ==> self.votes.contains_key((term, w)) && self.votes[(term, w)]
                == reign.leader
        &&& self.bids.contains_key((term, reign.leader))
        &&& reign.base <= reign.log.len()
        &&& self.bids[(term, reign.leader)].log == reign.log.take(reign.base as int)
        &&& forall|i: int|
            0 <= i < reign.log.len() ==> if i < reign.base {
                (#[trigger] reign.log[i]).term < term
            } else {
                reign.log[i].term == term
            }
        &&& rising(reign.log)
        &&& numbered(reign.log)
        &&& self.rooted(reign.log)
    }

    pub open spec fn bid_ok(self, term: u64, id: u64) -> bool {
        let bid = self.bids[(term, id)];
        &&& self.members.contains(id)
        &&& term <= self.term(id)
        &&& numbered(bid.log)
        &&& self.rooted(bid.log)
        &&& forall|i: int| 0 <= i < bid.log.len() ==> (#[trigger] bid.log[i]).term < term
        &&& bid.request == (VoteRequest {
            term,
            candidate_id: id,
            last_log_index: bid.log.len() as u64,
            last_log_term: last_term_of(bid.log),
        })
    }

    pub open spec fn vote_ok(self, term: u64, id: u64) -> bool {
        &&& self.members.contains(id)
        &&& term <= self.term(id)
        &&& term == self.term(id) ==> self.nodes[id].voted_for == Some(self.votes[(term, id)])
        &&& self.bids.contains_key((term, self.votes[(term, id)]))
    }

    pub open spec fn ack_ok(self, term: u64, id: u64) -> bool {
        &&& self.members.contains(id)
        &&& self.reigns.contains_key(term)
        &&& self.reigns[term].leader != id
        &&& self.acks[(term, id)] <= self.lead(term).len()
        &&& term <= self.term(id)
    }

    pub open spec fn vote_reply_ok(self, reply: VoteReply) -> bool {
        reply.answer.vote_granted ==> self.votes.contains_key((reply.term, reply.voter))
            && self.votes[(reply.term, reply.voter)] == reply.candidate
    }

    pub open spec fn append_ok(self, request: AppendMessage) -> bool {
        let term = request.term;
        let log = self.lead(term);
        let prev = request.prev_log_index as int;
        let end = rpc::end_of(request) as int;
        let entries = rpc::decode_entries(request.entries);
        &&& self.reigns.contains_key(term)
        &&& request.leader_id == self.reigns[term].leader
        &&& self.reigns[term].base <= end <= log.len()
        &&& prev > 0 ==> request.prev_log_term == log[prev - 1].term
        &&& entries.len() == request.entries.len()
        &&& forall|i: int|
            0 <= i < entries.len() ==> rpc::entry_to_ms(#[trigger] entries[i]) == log[prev + i]
        &&& request.leader_commit <= end
        &&& request.leader_commit > 0 ==> self.settled(term, request.leader_commit as int)
    }

    pub open spec fn snapshot_ok(self, request: SnapshotMessage) -> bool {
        let term = request.term;
        let last = request.last_included_index as int;
        &&& self.reigns.contains_key(term)
        &&& request.leader_id == self.reigns[term].leader
        &&& 0 < last <= self.lead(term).len()
        &&& request.last_included_term == self.lead(term)[last - 1].term
        &&& self.settled(term, last)
    }

    pub open spec fn append_reply_ok(self, reply: AppendReply) -> bool {
        let term = reply.sent.term;
        &&& self.members.contains(reply.from)
        &&& reply.answer.success ==> {
            &&& self.reigns.contains_key(term)
            &&& self.reigns[term].leader != reply.from
            &&& rpc::end_of(reply.sent) <= self.acked(term, reply.from)
        }
    }

    pub open spec fn snapshot_reply_ok(self, reply: SnapshotReply) -> bool {
        &&& self.members.contains(reply.from)
        &&& self.snapshot_ok(reply.sent)
        &&& reply.sent.term <= reply.answer.term
    }

    // --- All of them -------------------------------------------------------

    pub open spec fn shape_ok(self) -> bool {
        &&& cluster::can_be_members(self.members)
        &&& self.nodes.dom() == self.members
        &&& self.logs.dom() == self.members
    }

    pub open spec fn nodes_ok(self) -> bool {
        forall|id: u64| #[trigger] self.members.contains(id) ==> self.node_ok(id)
    }

    pub open spec fn reigns_ok(self) -> bool {
        forall|term: u64| #[trigger] self.reigns.contains_key(term) ==> self.reign_ok(term)
    }

    pub open spec fn ballots_ok(self) -> bool {
        &&& forall|term: u64, id: u64| #[trigger]
            self.bids.contains_key((term, id)) ==> self.bid_ok(term, id)
        &&& forall|term: u64, id: u64| #[trigger]
            self.votes.contains_key((term, id)) ==> self.vote_ok(term, id)
        &&& forall|term: u64, id: u64| #[trigger]
            self.acks.contains_key((term, id)) ==> self.ack_ok(term, id)
    }

    pub open spec fn inherits_ok(self) -> bool {
        forall|earlier: u64, later: u64, k: int|
            self.reigns.contains_key(earlier) && self.reigns.contains_key(later) && earlier < later
                && self.own(earlier, k) ==> #[trigger] self.inherits(earlier, later, k)
    }

    pub open spec fn vouches_ok(self) -> bool {
        forall|earlier: u64, later: u64, voter: u64, k: int|
            self.reigns.contains_key(earlier) && self.votes.contains_key((later, voter)) && earlier
                < later && self.own(earlier, k) && k <= self.hold(earlier, voter)
                ==> #[trigger] self.vouches(earlier, later, voter, k)
    }

    pub open spec fn messages_ok(self) -> bool {
        &&& forall|reply: VoteReply| #[trigger]
            self.vote_replies.contains(reply) ==> self.vote_reply_ok(reply)
        &&& forall|request: AppendMessage| #[trigger]
            self.appends.contains(request) ==> self.append_ok(request)
        &&& forall|reply: AppendReply| #[trigger]
            self.append_replies.contains(reply) ==> self.append_reply_ok(reply)
        &&& forall|request: SnapshotMessage| #[trigger]
            self.snapshots.contains(request) ==> self.snapshot_ok(request)
        &&& forall|reply: SnapshotReply| #[trigger]
            self.snapshot_replies.contains(reply) ==> self.snapshot_reply_ok(reply)
    }

    /// What holds of a cluster whatever happened in it.
    pub open spec fn ok(self) -> bool {
        &&& self.shape_ok()
        &&& self.nodes_ok()
        &&& self.reigns_ok()
        &&& self.ballots_ok()
        &&& self.inherits_ok()
        &&& self.vouches_ok()
        &&& self.messages_ok()
    }
}

/// A cluster that has just started is in order.
proof fn ok_at_start(members: Set<u64>)
    requires
        cluster::can_be_members(members),
    ensures
        cluster::started(members).ok(),
{
    let c = cluster::started(members);
    assert(c.nodes.dom() =~= members);
    assert(c.logs.dom() =~= members);
    assert forall|id: u64| #[trigger] c.members.contains(id) implies c.node_ok(id) by {
        reveal(covers);
        reveal(numbered);
        reveal(Cluster::rooted);
        laws::sound_at_start();
        assert(c.nodes[id] == state::initial_state());
        assert(c.logs[id] == Seq::<EntryView>::empty());
    }
}

// ---------------------------------------------------------------------------
// What an event leaves in place
// ---------------------------------------------------------------------------

/// The leadership goes on: its log only grows, and only while its leader is in its term.
pub open spec fn reign_grows(c: Cluster, d: Cluster, term: u64) -> bool {
    let before = c.reigns[term];
    let after = d.reigns[term];
    &&& d.reigns.contains_key(term)
    &&& after.leader == before.leader
    &&& after.voters == before.voters
    &&& after.base == before.base
    &&& before.log.len() <= after.log.len()
    &&& shares(before.log, after.log, before.log.len() as int)
    &&& after.log == before.log || c.term(before.leader) == term
}

/// What is recorded in `c` stays recorded in `d`, and no term goes back.
pub open spec fn grows(c: Cluster, d: Cluster) -> bool {
    &&& d.members == c.members
    &&& d.shape_ok()
    &&& forall|id: u64| #[trigger] c.members.contains(id) ==> c.term(id) <= d.term(id)
    &&& forall|term: u64| #[trigger] c.reigns.contains_key(term) ==> reign_grows(c, d, term)
    &&& forall|term: u64| #[trigger]
        d.reigns.contains_key(term) && !c.reigns.contains_key(term) ==> {
            &&& c.term(d.reigns[term].leader) == term
            &&& d.reigns[term].base == d.lead(term).len()
            &&& d.acks == c.acks
        }
    &&& forall|term: u64, id: u64| #[trigger]
        c.bids.contains_key((term, id)) ==> d.bids.contains_key((term, id)) && d.bids[(term, id)]
            == c.bids[(term, id)]
    &&& forall|term: u64, id: u64| #[trigger]
        c.votes.contains_key((term, id)) ==> d.votes.contains_key((term, id)) && d.votes[(
            term,
            id,
        )] == c.votes[(term, id)]
    &&& forall|term: u64, id: u64|
        {
            &&& c.acked(term, id) <= #[trigger] d.acked(term, id)
            &&& c.members.contains(id) && c.term(id) > term ==> d.acked(term, id) == c.acked(
                term,
                id,
            )
        }
}

proof fn hold_grows(c: Cluster, d: Cluster, term: u64, id: u64)
    requires
        grows(c, d),
        c.reigns.contains_key(term),
    ensures
        c.hold(term, id) <= d.hold(term, id),
        c.members.contains(id) && c.term(id) > term ==> d.hold(term, id) == c.hold(term, id),
{
    assert(reign_grows(c, d, term));
    assert(c.acked(term, id) <= d.acked(term, id));
}

/// What is shared with the leader of a term stays shared.
proof fn lead_grows(c: Cluster, d: Cluster, term: u64, log: Seq<EntryView>, k: int)
    requires
        grows(c, d),
        c.reigns.contains_key(term),
        shares(c.lead(term), log, k),
    ensures
        shares(d.lead(term), log, k),
        shares(log, d.lead(term), k),
{
    assert(reign_grows(c, d, term));
    share_bounds(c.lead(term), log, k);
    share_swap(c.lead(term), d.lead(term), c.lead(term).len() as int);
    share_through(d.lead(term), c.lead(term), log, c.lead(term).len() as int, k);
    share_swap(d.lead(term), log, k);
}

/// The entries that a leader had stay what they were.
proof fn lead_entry_grows(c: Cluster, d: Cluster, term: u64, i: int)
    requires
        grows(c, d),
        c.reigns.contains_key(term),
        0 <= i < c.lead(term).len(),
    ensures
        i < d.lead(term).len(),
        d.lead(term)[i] == c.lead(term)[i],
{
    assert(reign_grows(c, d, term));
    share_at(c.lead(term), d.lead(term), c.lead(term).len() as int, i);
}

proof fn safe_grows(c: Cluster, d: Cluster, term: u64, k: int)
    requires
        grows(c, d),
        c.safe(term, k),
    ensures
        d.safe(term, k),
{
    assert(reign_grows(c, d, term));
    lead_entry_grows(c, d, term, k - 1);
    let quorum = choose|quorum: Set<u64>| #[trigger] c.held_by(term, k, quorum);
    assert forall|w: u64| #[trigger] quorum.contains(w) implies d.hold(term, w) >= k by {
        hold_grows(c, d, term, w);
    }
    assert(d.held_by(term, k, quorum));
}

proof fn settled_grows(c: Cluster, d: Cluster, term: u64, m: int)
    requires
        grows(c, d),
        c.settled(term, m),
    ensures
        d.settled(term, m),
{
    assert(reign_grows(c, d, term));
    let (from, k) = choose|from: u64, k: int| #[trigger] c.settled_by(term, m, from, k);
    safe_grows(c, d, from, k);
    lead_grows(c, d, from, c.lead(term), m);
    share_swap(d.lead(from), c.lead(term), m);
    lead_grows(c, d, term, d.lead(from), m);
    assert(d.settled_by(term, m, from, k));
}

proof fn matched_grows(c: Cluster, d: Cluster, term: u64, p: u64, k: int)
    requires
        grows(c, d),
        c.reigns.contains_key(term),
        c.matched(term, p, k),
    ensures
        d.matched(term, p, k),
{
    if k <= c.hold(term, p) {
        hold_grows(c, d, term, p);
    } else {
        settled_grows(c, d, term, k);
    }
}

proof fn blocked_grows(c: Cluster, d: Cluster, term: u64, k: int)
    requires
        grows(c, d),
        c.reigns.contains_key(term),
        c.blocked(term, k),
    ensures
        d.blocked(term, k),
{
    let quorum = choose|quorum: Set<u64>| #[trigger] c.missed_by(term, k, quorum);
    assert forall|w: u64| #[trigger] quorum.contains(w) implies d.term(w) > term && d.hold(term, w)
        < k by {
        assert(c.members.contains(w));
        hold_grows(c, d, term, w);
    }
    assert(d.missed_by(term, k, quorum));
}

proof fn rooted_grows(c: Cluster, d: Cluster, log: Seq<EntryView>)
    requires
        grows(c, d),
        c.rooted(log),
    ensures
        d.rooted(log),
{
    reveal(Cluster::rooted);
    assert forall|i: int| 0 <= i < log.len() implies d.reigns.contains_key((#[trigger] log[i]).term)
        && shares(d.lead(log[i].term), log, i + 1) by {
        assert(reign_grows(c, d, log[i].term));
        lead_grows(c, d, log[i].term, log, i + 1);
    }
}

/// A later leader that lacks entries will not get them.
proof fn overrides_grows(c: Cluster, d: Cluster, earlier: u64, later: u64, k: int)
    requires
        grows(c, d),
        c.reigns.contains_key(earlier),
        c.reigns_ok(),
        d.reigns_ok(),
        0 <= k <= c.lead(earlier).len(),
        c.overrides(earlier, later, k),
    ensures
        d.overrides(earlier, later, k),
{
    assert(reign_grows(c, d, earlier));
    assert(reign_grows(c, d, later));
    assert(c.reign_ok(earlier));
    assert(c.reign_ok(later));
    if shares(d.lead(earlier), d.lead(later), k) {
        inherited_before_election(c, d, earlier, later, k);
        lead_entries_back(c, d, earlier, k);
        lead_entries_back(c, d, later, k);
        share_through(c.lead(earlier), d.lead(earlier), d.lead(later), k, k);
        share_swap(c.lead(later), d.lead(later), k);
        share_through(c.lead(earlier), d.lead(later), c.lead(later), k, k);
    }
}

/// The first entries of a leader's log were there before.
proof fn lead_entries_back(c: Cluster, d: Cluster, term: u64, k: int)
    requires
        grows(c, d),
        c.reigns.contains_key(term),
        0 <= k <= c.lead(term).len(),
    ensures
        shares(c.lead(term), d.lead(term), k),
{
    assert(reign_grows(c, d, term));
    share_less(c.lead(term), d.lead(term), c.lead(term).len() as int, k);
}

/// What a later leader has of an earlier one it had when it was elected.
proof fn inherited_before_election(c: Cluster, d: Cluster, earlier: u64, later: u64, k: int)
    requires
        grows(c, d),
        c.reigns.contains_key(earlier),
        c.reign_ok(earlier),
        d.reigns_ok(),
        d.reigns.contains_key(later),
        earlier < later,
        0 <= k <= c.lead(earlier).len(),
        shares(d.lead(earlier), d.lead(later), k),
    ensures
        k <= d.reigns[later].base,
{
    assert(d.reign_ok(later));
    if k > d.reigns[later].base {
        let i = k - 1;
        share_at(d.lead(earlier), d.lead(later), k, i);
        lead_entry_grows(c, d, earlier, i);
        assert(d.lead(later)[i].term == later);
        assert(c.lead(earlier)[i].term <= earlier);
    }
}

/// The same within one cluster.
proof fn inherited_at_election(c: Cluster, earlier: u64, later: u64, k: int)
    requires
        c.ok(),
        c.reigns.contains_key(earlier),
        c.reigns.contains_key(later),
        earlier < later,
        shares(c.lead(earlier), c.lead(later), k),
    ensures
        0 <= k <= c.reigns[later].base,
{
    assert(c.reign_ok(later));
    assert(c.reign_ok(earlier));
    share_bounds(c.lead(earlier), c.lead(later), k);
    if k > c.reigns[later].base {
        let i = k - 1;
        share_at(c.lead(earlier), c.lead(later), k, i);
        assert(c.lead(later)[i].term == later);
        assert(c.lead(earlier)[i].term <= earlier);
    }
}

proof fn keeps_grows(c: Cluster, d: Cluster, term: u64, id: u64, k: int)
    requires
        grows(c, d),
        c.reigns.contains_key(term),
        c.reigns_ok(),
        c.members.contains(id),
        d.reigns_ok(),
        d.logs[id] == c.logs[id],
        0 <= k <= c.lead(term).len(),
        c.keeps(term, id, k),
    ensures
        d.keeps(term, id, k),
{
    if shares(c.lead(term), c.logs[id], k) {
        lead_grows(c, d, term, c.logs[id], k);
    } else {
        let later = choose|later: u64| #[trigger]
            c.overrides(term, later, k) && later <= c.term(id);
        overrides_grows(c, d, term, later, k);
        assert(d.overrides(term, later, k) && later <= d.term(id));
    }
}

proof fn inherits_grows(c: Cluster, d: Cluster, earlier: u64, later: u64, k: int)
    requires
        grows(c, d),
        c.reigns.contains_key(earlier),
        c.reigns.contains_key(later),
        c.inherits(earlier, later, k),
    ensures
        d.inherits(earlier, later, k),
{
    if shares(c.lead(earlier), c.lead(later), k) {
        lead_grows(c, d, earlier, c.lead(later), k);
        share_swap(d.lead(earlier), c.lead(later), k);
        lead_grows(c, d, later, d.lead(earlier), k);
    } else {
        blocked_grows(c, d, earlier, k);
    }
}

proof fn committed_grows(c: Cluster, d: Cluster, id: u64, m: int)
    requires
        grows(c, d),
        c.members.contains(id),
        d.logs[id] == c.logs[id],
        c.committed(id, m),
    ensures
        d.committed(id, m),
{
    if m != 0 {
        let term = choose|term: u64| #[trigger] c.committed_by(id, m, term);
        settled_grows(c, d, term, m);
        hold_grows(c, d, term, id);
        lead_grows(c, d, term, c.logs[id], m);
        assert(d.committed_by(id, m, term));
    }
}

/// A node that an event does not touch stays in order.
proof fn untouched(c: Cluster, d: Cluster, id: u64)
    requires
        c.ok(),
        grows(c, d),
        d.reigns_ok(),
        c.members.contains(id),
        d.nodes[id] == c.nodes[id],
        d.logs[id] == c.logs[id],
        d.polls.contains_key(id) == c.polls.contains_key(id),
        c.polls.contains_key(id) ==> d.polls[id] == c.polls[id],
        c.nodes[id].role is Leader ==> d.lead(c.term(id)) == c.lead(c.term(id)),
        forall|term: u64| c.reigns.contains_key(term) ==> #[trigger] d.hold(term, id) == c.hold(
            term,
            id,
        ),
        forall|term: u64| #[trigger]
            d.reigns.contains_key(term) && !c.reigns.contains_key(term) ==> d.reigns[term].leader
                != id,
    ensures
        d.node_ok(id),
{
    assert(c.node_ok(id));
    rooted_grows(c, d, c.logs[id]);
    committed_grows(c, d, id, c.nodes[id].commit_index as int);
    if c.nodes[id].role is Candidate && c.reigns.contains_key(c.term(id)) {
        assert(reign_grows(c, d, c.term(id)));
    }
    if c.polls.contains_key(id) {
        assert(c.bids.contains_key((c.polls[id].election.term, id)));
    }
    if c.nodes[id].role is Leader {
        let term = c.term(id);
        assert(reign_grows(c, d, term));
        let s = c.nodes[id];
        assert forall|p: u64| #[trigger] s.match_index.contains_key(p) implies d.matched(
            term,
            p,
            s.match_index[p] as int,
        ) by {
            matched_grows(c, d, term, p, s.match_index[p] as int);
        }
    }
    assert forall|term: u64, k: int|
        d.reigns.contains_key(term) && 0 <= k <= d.hold(term, id) implies #[trigger] d.keeps(
        term,
        id,
        k,
    ) by {
        if c.reigns.contains_key(term) {
            assert(d.hold(term, id) == c.hold(term, id));
            assert(c.reign_ok(term));
            hold_bounds(c, term, id);
            assert(c.keeps(term, id, k));
            keeps_grows(c, d, term, id, k);
        } else {
            assert(d.acks == c.acks);
            if c.acks.contains_key((term, id)) {
                assert(c.ack_ok(term, id));
            }
            assert(d.hold(term, id) == 0);
            share_none(d.lead(term), d.logs[id]);
        }
    }
}

/// No node holds more than there is.
proof fn hold_bounds(c: Cluster, term: u64, id: u64)
    requires
        c.ok(),
        c.reigns.contains_key(term),
    ensures
        c.hold(term, id) <= c.lead(term).len(),
        c.hold(term, id) > 0 && c.members.contains(id) ==> term <= c.term(id),
{
    if c.acks.contains_key((term, id)) {
        assert(c.ack_ok(term, id));
    }
    assert(c.reign_ok(term));
}

/// Records of elections, votes and acknowledgements that were there before stay in order.
proof fn ballots_stay(c: Cluster, d: Cluster, term: u64, id: u64)
    requires
        c.ok(),
        grows(c, d),
    ensures
        c.bids.contains_key((term, id)) ==> d.bid_ok(term, id),
        c.votes.contains_key((term, id)) && d.term(id) == c.term(id) && (c.nodes[id].voted_for
            is Some ==> d.nodes[id].voted_for == c.nodes[id].voted_for) ==> d.vote_ok(term, id),
        c.votes.contains_key((term, id)) && d.term(id) > c.term(id) ==> d.vote_ok(term, id),
        c.acks.contains_key((term, id)) && d.acks.contains_key((term, id)) && d.acks[(term, id)]
            == c.acks[(term, id)] ==> d.ack_ok(term, id),
{
    if c.bids.contains_key((term, id)) {
        assert(c.bid_ok(term, id));
        rooted_grows(c, d, c.bids[(term, id)].log);
    }
    if c.votes.contains_key((term, id)) {
        assert(c.vote_ok(term, id));
        assert(c.bids.contains_key((term, c.votes[(term, id)])));
    }
    if c.acks.contains_key((term, id)) {
        assert(c.ack_ok(term, id));
        assert(reign_grows(c, d, term));
    }
}

/// Messages that were under way before stay in order.
proof fn messages_stay(c: Cluster, d: Cluster)
    requires
        c.ok(),
        grows(c, d),
    ensures
        forall|reply: VoteReply| #[trigger]
            c.vote_replies.contains(reply) ==> d.vote_reply_ok(reply),
        forall|request: AppendMessage| #[trigger]
            c.appends.contains(request) ==> d.append_ok(request),
        forall|request: SnapshotMessage| #[trigger]
            c.snapshots.contains(request) ==> d.snapshot_ok(request),
        forall|reply: AppendReply| #[trigger]
            c.append_replies.contains(reply) ==> d.append_reply_ok(reply),
        forall|reply: SnapshotReply| #[trigger]
            c.snapshot_replies.contains(reply) ==> d.snapshot_reply_ok(reply),
{
    assert forall|reply: AppendReply| #[trigger]
        c.append_replies.contains(reply) implies d.append_reply_ok(reply) by {
        assert(c.append_reply_ok(reply));
        if reply.answer.success {
            assert(reign_grows(c, d, reply.sent.term));
            assert(c.acked(reply.sent.term, reply.from) <= d.acked(reply.sent.term, reply.from));
        }
    }
    assert forall|reply: SnapshotReply| #[trigger]
        c.snapshot_replies.contains(reply) implies d.snapshot_reply_ok(reply) by {
        assert(c.snapshot_reply_ok(reply));
        snapshot_stays(c, d, reply.sent);
    }
    assert forall|reply: VoteReply| #[trigger]
        c.vote_replies.contains(reply) implies d.vote_reply_ok(reply) by {
        assert(c.vote_reply_ok(reply));
    }
    assert forall|request: AppendMessage| #[trigger]
        c.appends.contains(request) implies d.append_ok(request) by {
        assert(c.append_ok(request));
        let term = request.term;
        let prev = request.prev_log_index as int;
        let entries = rpc::decode_entries(request.entries);
        assert(reign_grows(c, d, term));
        if prev > 0 {
            lead_entry_grows(c, d, term, prev - 1);
        }
        assert forall|i: int| 0 <= i < entries.len() implies rpc::entry_to_ms(#[trigger] entries[i])
            == d.lead(term)[prev + i] by {
            lead_entry_grows(c, d, term, prev + i);
        }
        if request.leader_commit > 0 {
            settled_grows(c, d, term, request.leader_commit as int);
        }
    }
    assert forall|request: SnapshotMessage| #[trigger]
        c.snapshots.contains(request) implies d.snapshot_ok(request) by {
        assert(c.snapshot_ok(request));
        snapshot_stays(c, d, request);
    }
}

/// A snapshot that was in order stays in order.
proof fn snapshot_stays(c: Cluster, d: Cluster, request: SnapshotMessage)
    requires
        grows(c, d),
        c.snapshot_ok(request),
    ensures
        d.snapshot_ok(request),
{
    assert(reign_grows(c, d, request.term));
    lead_entry_grows(c, d, request.term, request.last_included_index - 1);
    settled_grows(c, d, request.term, request.last_included_index as int);
}

/// Leaderships stay in order where their logs stay.
proof fn reigns_stay(c: Cluster, d: Cluster)
    requires
        c.ok(),
        grows(c, d),
        d.reigns == c.reigns,
    ensures
        d.reigns_ok(),
{
    assert forall|term: u64| #[trigger] d.reigns.contains_key(term) implies d.reign_ok(term) by {
        assert(c.reign_ok(term));
        rooted_grows(c, d, c.lead(term));
        assert(reign_grows(c, d, term));
    }
}

/// What later leaders inherit, and what voters vouch for, stays where the leaderships and the
/// votes stay.
proof fn inheritance_stays(c: Cluster, d: Cluster)
    requires
        c.ok(),
        grows(c, d),
        d.reigns == c.reigns,
    ensures
        d.inherits_ok(),
        forall|earlier: u64, later: u64, voter: u64, k: int|
            d.reigns.contains_key(earlier) && c.votes.contains_key((later, voter)) && earlier
                < later && d.own(earlier, k) && k <= d.hold(earlier, voter)
                ==> #[trigger] d.vouches(earlier, later, voter, k),
{
    assert forall|earlier: u64, later: u64, k: int|
        d.reigns.contains_key(earlier) && d.reigns.contains_key(later) && earlier < later && d.own(
            earlier,
            k,
        ) implies #[trigger] d.inherits(earlier, later, k) by {
        assert(c.own(earlier, k));
        assert(c.inherits(earlier, later, k));
        inherits_grows(c, d, earlier, later, k);
    }
    assert forall|earlier: u64, later: u64, voter: u64, k: int|
        d.reigns.contains_key(earlier) && c.votes.contains_key((later, voter)) && earlier < later
            && d.own(earlier, k) && k <= d.hold(earlier, voter) implies #[trigger] d.vouches(
        earlier,
        later,
        voter,
        k,
    ) by {
        assert(c.own(earlier, k));
        vouches_grows(c, d, earlier, later, voter, k);
    }
}

proof fn vouches_grows(c: Cluster, d: Cluster, earlier: u64, later: u64, voter: u64, k: int)
    requires
        c.ok(),
        grows(c, d),
        c.reigns.contains_key(earlier),
        c.votes.contains_key((later, voter)),
        earlier < later,
        c.own(earlier, k),
        k <= d.hold(earlier, voter),
    ensures
        d.vouches(earlier, later, voter, k),
{
    assert(c.vote_ok(later, voter));
    hold_grows(c, d, earlier, voter);
    assert(c.vouches(earlier, later, voter, k));
    if c.blocked(earlier, k) {
        blocked_grows(c, d, earlier, k);
    } else {
        let bid = (later, c.votes[(later, voter)]);
        assert(c.bids.contains_key(bid));
        lead_grows(c, d, earlier, c.bids[bid].log, k);
    }
}

// ---------------------------------------------------------------------------
// Events at one node
// ---------------------------------------------------------------------------

/// Nothing but the node and its acknowledgements changes in the records.
pub open spec fn only_at(c: Cluster, d: Cluster, id: u64) -> bool {
    &&& d.members == c.members
    &&& d.nodes.dom() == c.nodes.dom()
    &&& d.logs.dom() == c.logs.dom()
    &&& d.reigns == c.reigns
    &&& d.bids == c.bids
    &&& forall|w: u64| #[trigger]
        c.members.contains(w) && w != id ==> {
            &&& d.nodes[w] == c.nodes[w]
            &&& d.logs[w] == c.logs[w]
            &&& d.polls.contains_key(w) == c.polls.contains_key(w)
            &&& c.polls.contains_key(w) ==> d.polls[w] == c.polls[w]
        }
    &&& forall|term: u64, w: u64|
        w != id ==> #[trigger] d.acks.contains_key((term, w)) == c.acks.contains_key((term, w))
            && d.acked(term, w) == c.acked(term, w)
}

/// An event at one node lets the records grow.
proof fn grows_at(c: Cluster, d: Cluster, id: u64)
    requires
        c.ok(),
        only_at(c, d, id),
        c.members.contains(id),
        c.term(id) <= d.term(id),
        forall|term: u64, w: u64| #[trigger]
            c.votes.contains_key((term, w)) ==> d.votes.contains_key((term, w)) && d.votes[(
                term,
                w,
            )] == c.votes[(term, w)],
        forall|term: u64| c.acked(term, id) <= #[trigger] d.acked(term, id),
        forall|term: u64|
            c.term(id) > term ==> #[trigger] d.acked(term, id) == c.acked(term, id),
    ensures
        grows(c, d),
        d.reigns_ok(),
{
    assert forall|term: u64| #[trigger] c.reigns.contains_key(term) implies reign_grows(
        c,
        d,
        term,
    ) by {
        share_take(c.lead(term), c.lead(term).len() as int, c.lead(term).len() as int);
    }
    assert forall|term: u64, w: u64|
        {
            &&& c.acked(term, w) <= #[trigger] d.acked(term, w)
            &&& c.members.contains(w) && c.term(w) > term ==> d.acked(term, w) == c.acked(term, w)
        } by {
        if w != id {
            assert(d.acks.contains_key((term, w)) == c.acks.contains_key((term, w)));
        }
    }
    reigns_stay(c, d);
}

/// After an event at one node that gives no vote the cluster is in order if the node is.
proof fn ok_at(c: Cluster, d: Cluster, id: u64)
    requires
        c.ok(),
        grows(c, d),
        d.reigns_ok(),
        only_at(c, d, id),
        c.members.contains(id),
        d.votes == c.votes,
        laws::vote_kept(c.nodes[id], d.nodes[id]),
        d.node_ok(id),
        forall|term: u64| #[trigger] d.acks.contains_key((term, id)) ==> d.ack_ok(term, id),
        d.messages_ok(),
    ensures
        d.ok(),
{
    others_ok_at(c, d, id);
    inheritance_stays(c, d);
    assert forall|term: u64, w: u64| #[trigger] d.bids.contains_key((term, w)) implies d.bid_ok(
        term,
        w,
    ) by {
        ballots_stay(c, d, term, w);
    }
    assert forall|term: u64, w: u64| #[trigger] d.votes.contains_key((term, w)) implies d.vote_ok(
        term,
        w,
    ) by {
        assert(c.vote_ok(term, w));
        ballots_stay(c, d, term, w);
    }
    assert forall|term: u64, w: u64| #[trigger] d.acks.contains_key((term, w)) implies d.ack_ok(
        term,
        w,
    ) by {
        if w != id {
            assert(c.acks.contains_key((term, w)));
            ballots_stay(c, d, term, w);
            assert(d.acked(term, w) == c.acked(term, w));
        }
    }
}

/// After an event at one node all nodes are in order if that one is.
proof fn others_ok_at(c: Cluster, d: Cluster, id: u64)
    requires
        c.ok(),
        grows(c, d),
        d.reigns_ok(),
        only_at(c, d, id),
        d.node_ok(id),
    ensures
        d.nodes_ok(),
{
    assert forall|w: u64| #[trigger] d.members.contains(w) implies d.node_ok(w) by {
        if w != id {
            assert(c.node_ok(w));
            assert forall|term: u64| c.reigns.contains_key(term) implies #[trigger] d.hold(term, w)
                == c.hold(term, w) by {
                assert(d.acks.contains_key((term, w)) == c.acks.contains_key((term, w)));
            }
            untouched(c, d, w);
        }
    }
}

/// Fewer entries are committed too.
pub(crate) proof fn committed_less(c: Cluster, id: u64, m: int, less: int)
    requires
        c.committed(id, m),
        0 <= less <= m,
    ensures
        c.committed(id, less),
{
    if less != 0 {
        let term = choose|term: u64| #[trigger] c.committed_by(id, m, term);
        settled_less(c, term, m, less);
        share_less(c.lead(term), c.logs[id], m, less);
        assert(c.committed_by(id, less, term));
    }
}

proof fn settled_less(c: Cluster, term: u64, m: int, less: int)
    requires
        c.settled(term, m),
        0 <= less <= m,
    ensures
        c.settled(term, less),
{
    let (from, k) = choose|from: u64, k: int| #[trigger] c.settled_by(term, m, from, k);
    share_less(c.lead(from), c.lead(term), m, less);
    assert(c.settled_by(term, less, from, k));
}

/// A leader stays in order while its log stays.
proof fn leader_stays(c: Cluster, d: Cluster, id: u64)
    requires
        c.ok(),
        grows(c, d),
        c.members.contains(id),
        c.leads_on(id, d.nodes[id]),
        d.logs[id] == c.logs[id],
        d.reigns == c.reigns,
    ensures
        d.leader_ok(id),
{
    let t = d.nodes[id];
    if t.role is Leader {
        assert(c.node_ok(id));
        assert forall|p: u64| #[trigger] t.match_index.contains_key(p) implies d.matched(
            t.current_term,
            p,
            t.match_index[p] as int,
        ) by {
            matched_grows(c, d, t.current_term, p, t.match_index[p] as int);
        }
    }
}

/// A node that changes neither its log nor, unless to something committed, its commit index.
proof fn quiet(c: Cluster, id: u64, t: StateView)
    requires
        c.ok(),
        c.members.contains(id),
        laws::vote_kept(c.nodes[id], t),
        laws::sound(t),
        covers(t, c.logs[id]),
        c.committed(id, t.commit_index as int),
        t.role is Candidate ==> c.nodes[id].role is Candidate && t.current_term == c.term(id),
        c.leads_on(id, t),
    ensures
        c.with_node(id, t).ok(),
        grows(c, c.with_node(id, t)),
{
    let d = c.with_node(id, t);
    assert(d.nodes.dom() =~= c.nodes.dom());
    assert(c.node_ok(id));
    grows_at(c, d, id);
    leader_stays(c, d, id);
    committed_grows(c, d, id, t.commit_index as int);
    rooted_grows(c, d, c.logs[id]);
    holds_stay(c, d, id);
    messages_stay(c, d);
    assert forall|term: u64| #[trigger] d.acks.contains_key((term, id)) implies d.ack_ok(
        term,
        id,
    ) by {
        assert(c.acks.contains_key((term, id)));
        ballots_stay(c, d, term, id);
    }
    ok_at(c, d, id);
}

/// A node keeps what it held where neither its log nor what it acknowledged changes.
proof fn holds_stay(c: Cluster, d: Cluster, id: u64)
    requires
        c.ok(),
        grows(c, d),
        d.reigns_ok(),
        d.reigns == c.reigns,
        c.members.contains(id),
        d.logs[id] == c.logs[id],
        forall|term: u64| #[trigger] d.acked(term, id) == c.acked(term, id),
    ensures
        d.hold_ok(id),
{
    assert(c.node_ok(id));
    assert forall|term: u64, k: int|
        d.reigns.contains_key(term) && 0 <= k <= d.hold(term, id) implies #[trigger] d.keeps(
        term,
        id,
        k,
    ) by {
        assert(d.acked(term, id) == c.acked(term, id));
        hold_bounds(c, term, id);
        assert(c.keeps(term, id, k));
        keeps_grows(c, d, term, id, k);
    }
}

proof fn ok_after_apply(c: Cluster, id: u64)
    requires
        c.ok(),
        c.members.contains(id),
    ensures
        c.with_node(id, node::applied_all(c.nodes[id])).ok(),
        grows(c, c.with_node(id, node::applied_all(c.nodes[id]))),
{
    let t = node::applied_all(c.nodes[id]);
    assert(c.node_ok(id));
    laws::applying_keeps_sound(c.nodes[id]);
    assert(covers(t, c.logs[id])) by {
        reveal(covers);
    }
    quiet(c, id, t);
}

proof fn ok_after_compact(
    c: Cluster,
    id: u64,
    jobs: Seq<SnapshotJobView>,
    workers: Seq<u64>,
)
    requires
        c.ok(),
        c.members.contains(id),
        c.nodes[id].compactable(),
    ensures
        c.with_node(id, c.nodes[id].compacted(jobs, workers)).ok(),
        grows(c, c.with_node(id, c.nodes[id].compacted(jobs, workers))),
{
    let s = c.nodes[id];
    let t = s.compacted(jobs, workers);
    let log = c.logs[id];
    assert(c.node_ok(id));
    laws::compaction_keeps_sound(s, jobs, workers);
    covered_entry(s, log, s.last_applied as int);
    assert(covers(t, log)) by {
        reveal(covers);
        assert forall|i: int| 0 <= i < t.log.len() implies rpc::entry_to_ms(#[trigger] t.log[i])
            == log[t.log_offset + i] by {
            assert(t.log[i] == s.log[i + s.last_applied - s.log_offset]);
        }
    }
    quiet(c, id, t);
}

proof fn ok_after_step_down(c: Cluster, id: u64)
    requires
        c.ok(),
        c.members.contains(id),
    ensures
        c.with_node(id, c.nodes[id].stepped_down()).ok(),
        grows(c, c.with_node(id, c.nodes[id].stepped_down())),
{
    assert(c.node_ok(id));
    assert(covers(c.nodes[id].stepped_down(), c.logs[id])) by {
        reveal(covers);
    }
    quiet(c, id, c.nodes[id].stepped_down());
}

proof fn ok_after_restart(c: Cluster, id: u64, stored: PersistedState)
    requires
        c.ok(),
        c.members.contains(id),
        laws::stored(c.nodes[id], stored),
    ensures
        c.with_node(id, node::restored_state(stored)).ok(),
        grows(c, c.with_node(id, node::restored_state(stored))),
{
    let s = c.nodes[id];
    let t = node::restored_state(stored);
    assert(c.node_ok(id));
    laws::restart_keeps_state(s, stored);
    assert(covers(t, c.logs[id])) by {
        reveal(covers);
    }
    committed_less(c, id, s.commit_index as int, s.log_offset as int);
    quiet(c, id, t);
}

// ---------------------------------------------------------------------------
// Answers
// ---------------------------------------------------------------------------

/// What a leader commits because a majority is known to hold it is committed.
proof fn advancing_is_committed(c: Cluster, id: u64, u: StateView)
    requires
        c.shape_ok(),
        c.members.contains(id),
        c.reigns.contains_key(u.current_term),
        c.reigns[u.current_term].leader == id,
        c.term(id) == u.current_term,
        c.logs[id] == c.lead(u.current_term),
        laws::sound(u),
        covers(u, c.logs[id]),
        u.match_index.dom() == c.members.remove(id),
        forall|p: u64| #[trigger]
            u.match_index.contains_key(p) ==> c.matched(
                u.current_term,
                p,
                u.match_index[p] as int,
            ),
        c.committed(id, u.commit_index as int),
    ensures
        c.committed(id, node::commit_advanced(u).commit_index as int),
{
    let term = u.current_term;
    let m = node::commit_advanced(u).commit_index;
    laws::leader_commits_by_majority(u);
    if m != u.commit_index {
        covered_entry(u, c.logs[id], m as int);
        covered_end(u, c.logs[id]);
        let which = |peer: u64| u.match_index[peer] >= m;
        let peers = u.match_index.dom().filter(which);
        let quorum = peers.insert(id);
        assert(!peers.contains(id));
        assert(peers.finite());
        assert(u.last_index() >= m);
        assert(quorum.len() == node::nodes_holding(u, m));
        assert(is_quorum(c.members, quorum));
        share_take(c.lead(term), c.lead(term).len() as int, m as int);
        if forall|w: u64| #[trigger] quorum.contains(w) ==> c.hold(term, w) >= m {
            assert(c.held_by(term, m as int, quorum));
            assert(c.safe(term, m as int));
            assert(c.settled_by(term, m as int, term, m as int));
        } else {
            let w = choose|w: u64| #[trigger] quorum.contains(w) && c.hold(term, w) < m;
            assert(w != id);
            assert(u.match_index.contains_key(w));
            settled_less(c, term, u.match_index[w] as int, m as int);
        }
        assert(c.committed_by(id, m as int, term));
    }
}

/// What a leader notes of a peer that caught up is in order.
proof fn caught_up_ok(c: Cluster, id: u64, p: u64, end: u64)
    requires
        c.ok(),
        c.members.contains(id),
        c.nodes[id].role is Leader,
        c.members.contains(p),
        p != id,
        end <= c.acked(c.term(id), p) || c.settled(c.term(id), end as int),
    ensures
        c.leads_on(id, node::peer_caught_up(c.nodes[id], p, end)),
        laws::sound(node::peer_caught_up(c.nodes[id], p, end)),
        covers(node::peer_caught_up(c.nodes[id], p, end), c.logs[id]),
{
    let s = c.nodes[id];
    let u = node::peer_caught_up(s, p, end);
    let term = s.current_term;
    assert(c.node_ok(id));
    assert(c.reign_ok(term));
    assert(covers(u, c.logs[id])) by {
        reveal(covers);
    }
    if end <= c.acked(term, p) {
        if c.acks.contains_key((term, p)) {
            assert(c.ack_ok(term, p));
        }
    } else {
        let (from, k) = choose|from: u64, k: int| #[trigger]
            c.settled_by(term, end as int, from, k);
        share_bounds(c.lead(from), c.lead(term), end as int);
    }
    assert(c.members.remove(id).contains(p));
    reveal(numbered);
    assert(u.match_index.dom() =~= c.members.remove(id));
    assert(u.next_index.dom() =~= c.members.remove(id));
    assert forall|q: u64| #[trigger] u.match_index.contains_key(q) implies c.matched(
        term,
        q,
        u.match_index[q] as int,
    ) by {
        if q != p {
            assert(s.match_index.contains_key(q));
        }
    }
}

#[verifier::rlimit(60)]
proof fn ok_after_acknowledge(c: Cluster, id: u64, reply: AppendReply)
    requires
        c.ok(),
        c.possible(Event::Acknowledge { node: id, reply }),
    ensures
        c.after(Event::Acknowledge { node: id, reply }).ok(),
        grows(c, c.after(Event::Acknowledge { node: id, reply })),
{
    let s = c.nodes[id];
    let p = reply.from;
    let t = node::after_append_response(s, p, reply.sent, reply.answer);
    let d = c.with_node(id, t);
    assert(c.node_ok(id));
    assert(c.append_reply_ok(reply));
    laws::answers_keep_sound(s, p, reply.sent, reply.answer, arbitrary(), arbitrary());
    assert(covers(t, c.logs[id])) by {
        reveal(covers);
    }
    if t.role is Leader {
        assert(s.role is Leader && t.current_term == s.current_term);
        if !reply.answer.success {
            assert(c.members.remove(id).contains(p));
            assert(t.next_index.dom() =~= c.members.remove(id));
            assert(s.next_index.contains_key(p));
        } else if reply.sent.term == s.current_term && reply.answer.term == s.current_term {
            assert(rpc::end_of(reply.sent) < u64::MAX) by {
                if c.acks.contains_key((s.current_term, p)) {
                    assert(c.ack_ok(s.current_term, p));
                    assert(c.reign_ok(s.current_term));
                    reveal(numbered);
                }
            }
            let end = rpc::end_of(reply.sent) as u64;
            let u = node::peer_caught_up(s, p, end);
            caught_up_ok(c, id, p, end);
            advancing_is_committed(c, id, u);
        }
    }
    quiet(c, id, t);
}

proof fn ok_after_installed(c: Cluster, id: u64, receipt: SnapshotReply)
    requires
        c.ok(),
        c.possible(Event::Installed { node: id, receipt }),
    ensures
        c.after(Event::Installed { node: id, receipt }).ok(),
        grows(c, c.after(Event::Installed { node: id, receipt })),
{
    let s = c.nodes[id];
    let p = receipt.from;
    let t = node::after_snapshot_response(s, p, receipt.sent, receipt.answer);
    assert(c.node_ok(id));
    assert(c.snapshot_reply_ok(receipt));
    laws::answers_keep_sound(s, p, arbitrary(), arbitrary(), receipt.sent, receipt.answer);
    assert(covers(t, c.logs[id])) by {
        reveal(covers);
    }
    if t.role is Leader {
        let last = receipt.sent.last_included_index as int;
        if receipt.sent.term < s.current_term {
            settled_carries(c, receipt.sent.term, last, s.current_term);
        }
        caught_up_ok(c, id, p, receipt.sent.last_included_index);
    }
    quiet(c, id, t);
}

#[verifier::rlimit(60)]
proof fn ok_after_count(c: Cluster, id: u64, ballot: VoteReply)
    requires
        c.ok(),
        c.possible(Event::Count { node: id, ballot }),
    ensures
        c.after(Event::Count { node: id, ballot }).ok(),
        grows(c, c.after(Event::Count { node: id, ballot })),
{
    let s = c.nodes[id];
    let t = node::after_vote_response(s, ballot.answer);
    let d = c.after_count(id, ballot);
    let poll = c.polls[id];
    assert(d.nodes.dom() =~= c.nodes.dom());
    assert(c.node_ok(id));
    assert(c.vote_reply_ok(ballot));
    grows_at(c, d, id);
    leader_stays(c, d, id);
    committed_grows(c, d, id, t.commit_index as int);
    rooted_grows(c, d, c.logs[id]);
    holds_stay(c, d, id);
    messages_stay(c, d);
    assert(covers(t, c.logs[id])) by {
        reveal(covers);
    }
    assert(d.poll_ok(id)) by {
        vstd::set_lib::lemma_len_subset(poll.voters, c.members);
        if d.polls[id].election.votes != poll.election.votes {
            assert(c.vote_ok(ballot.term, ballot.voter));
        }
    }
    assert forall|term: u64| #[trigger] d.acks.contains_key((term, id)) implies d.ack_ok(
        term,
        id,
    ) by {
        assert(c.acks.contains_key((term, id)));
        ballots_stay(c, d, term, id);
    }
    ok_at(c, d, id);
}

// ---------------------------------------------------------------------------
// Elections
// ---------------------------------------------------------------------------

/// The terms in a log do not fall.
proof fn rooted_rises(c: Cluster, log: Seq<EntryView>)
    requires
        c.reigns_ok(),
        c.rooted(log),
    ensures
        rising(log),
{
    reveal(rising);
    reveal(Cluster::rooted);
    assert forall|i: int, j: int| 0 <= i <= j < log.len() implies (#[trigger] log[i]).term <= (
    #[trigger] log[j]).term by {
        let lead = c.lead(log[j].term);
        assert(c.reign_ok(log[j].term));
        share_at(lead, log, j + 1, i);
        share_at(lead, log, j + 1, j);
        assert(lead[i].term <= lead[j].term);
    }
}

/// An entry of a log is of the leader of its term, with all before it.
pub(crate) proof fn rooted_at(c: Cluster, log: Seq<EntryView>, k: int)
    requires
        c.rooted(log),
        1 <= k <= log.len(),
    ensures
        c.reigns.contains_key(log[k - 1].term),
        shares(c.lead(log[k - 1].term), log, k),
{
    reveal(Cluster::rooted);
    assert(c.reigns.contains_key(log[k - 1].term));
}

/// Entries that a majority holds are not blocked.
proof fn safe_is_not_blocked(c: Cluster, term: u64, k: int)
    requires
        c.ok(),
        c.safe(term, k),
    ensures
        !c.blocked(term, k),
{
    if c.blocked(term, k) {
        let a = choose|quorum: Set<u64>| #[trigger] c.held_by(term, k, quorum);
        let b = choose|quorum: Set<u64>| #[trigger] c.missed_by(term, k, quorum);
        let w = quorums_meet(c.members, a, b);
        assert(c.hold(term, w) >= k);
    }
}

/// Where a node gave up entries for a later leader, they are never committed.
proof fn given_up_is_blocked(c: Cluster, term: u64, id: u64, k: int)
    requires
        c.ok(),
        c.reigns.contains_key(term),
        c.own(term, k),
        c.keeps(term, id, k),
        !shares(c.lead(term), c.logs[id], k),
    ensures
        c.blocked(term, k),
{
    let later = choose|later: u64| #[trigger] c.overrides(term, later, k) && later <= c.term(id);
    assert(c.inherits(term, later, k));
}

/// A candidacy is in a term that the node has not been in.
proof fn standing_grows(c: Cluster, id: u64)
    requires
        c.ok(),
        c.possible(Event::Stand { node: id }),
    ensures
        grows(c, c.after_stand(id)),
        c.after_stand(id).reigns_ok(),
        c.after_stand(id).term(id) == c.term(id) + 1,
        !c.bids.contains_key((c.after_stand(id).term(id), id)),
        !c.votes.contains_key((c.after_stand(id).term(id), id)),
{
    let d = c.after_stand(id);
    let now = d.term(id);
    assert(c.node_ok(id));
    assert(now == c.term(id) + 1);
    assert(d.nodes.dom() =~= c.nodes.dom());
    if c.bids.contains_key((now, id)) {
        assert(c.bid_ok(now, id));
    }
    if c.votes.contains_key((now, id)) {
        assert(c.vote_ok(now, id));
    }
    assert forall|term: u64| #[trigger] c.reigns.contains_key(term) implies reign_grows(
        c,
        d,
        term,
    ) by {
        share_take(c.lead(term), c.lead(term).len() as int, c.lead(term).len() as int);
    }
    assert forall|term: u64, w: u64|
        {
            &&& c.acked(term, w) <= #[trigger] d.acked(term, w)
            &&& c.members.contains(w) && c.term(w) > term ==> d.acked(term, w) == c.acked(term, w)
        } by {}
    reigns_stay(c, d);
}

#[verifier::rlimit(60)]
proof fn standing_keeps_nodes(c: Cluster, id: u64)
    requires
        c.ok(),
        c.possible(Event::Stand { node: id }),
    ensures
        c.after_stand(id).nodes_ok(),
{
    let s = c.nodes[id];
    let t = s.as_candidate(id);
    let d = c.after_stand(id);
    let log = c.logs[id];
    assert(c.node_ok(id));
    standing_grows(c, id);
    committed_grows(c, d, id, t.commit_index as int);
    rooted_grows(c, d, log);
    holds_stay(c, d, id);
    assert(covers(t, log)) by {
        reveal(covers);
    }
    assert(d.candidate_ok(id)) by {
        if c.reigns.contains_key(t.current_term) {
            assert(c.reign_ok(t.current_term));
        }
    }
    assert(d.poll_ok(id)) by {
        assert(set![id].len() == 1);
    }
    assert(d.node_ok(id));
    assert forall|w: u64| #[trigger] d.members.contains(w) implies d.node_ok(w) by {
        if w != id {
            assert(c.node_ok(w));
            untouched(c, d, w);
        }
    }
}

proof fn standing_keeps_ballots(c: Cluster, id: u64)
    requires
        c.ok(),
        c.possible(Event::Stand { node: id }),
    ensures
        c.after_stand(id).ballots_ok(),
{
    let s = c.nodes[id];
    let d = c.after_stand(id);
    assert(c.node_ok(id));
    standing_grows(c, id);
    assert forall|term: u64, w: u64| #[trigger] d.bids.contains_key((term, w)) implies d.bid_ok(
        term,
        w,
    ) by {
        if c.bids.contains_key((term, w)) {
            ballots_stay(c, d, term, w);
        } else {
            rooted_grows(c, d, c.logs[id]);
            covered_end(s, c.logs[id]);
            reveal(numbered);
        }
    }
    assert forall|term: u64, w: u64| #[trigger] d.votes.contains_key((term, w)) implies d.vote_ok(
        term,
        w,
    ) by {
        if c.votes.contains_key((term, w)) {
            assert(c.vote_ok(term, w));
            ballots_stay(c, d, term, w);
        } else {
            assert(d.bids.contains_key((term, w)));
        }
    }
    assert forall|term: u64, w: u64| #[trigger] d.acks.contains_key((term, w)) implies d.ack_ok(
        term,
        w,
    ) by {
        ballots_stay(c, d, term, w);
    }
}

proof fn standing_vouches(c: Cluster, id: u64)
    requires
        c.ok(),
        c.possible(Event::Stand { node: id }),
    ensures
        c.after_stand(id).inherits_ok(),
        c.after_stand(id).vouches_ok(),
{
    let d = c.after_stand(id);
    let log = c.logs[id];
    assert(c.node_ok(id));
    standing_grows(c, id);
    inheritance_stays(c, d);
    assert forall|earlier: u64, later: u64, voter: u64, k: int|
        d.reigns.contains_key(earlier) && d.votes.contains_key((later, voter)) && earlier < later
            && d.own(earlier, k) && k <= d.hold(earlier, voter) implies #[trigger] d.vouches(
        earlier,
        later,
        voter,
        k,
    ) by {
        if !c.votes.contains_key((later, voter)) {
            assert(later == d.term(id) && voter == id);
            assert(c.own(earlier, k));
            assert(d.hold(earlier, id) == c.hold(earlier, id));
            assert(c.keeps(earlier, id, k));
            if !shares(c.lead(earlier), log, k) {
                given_up_is_blocked(c, earlier, id, k);
                blocked_grows(c, d, earlier, k);
            }
        }
    }
}

proof fn ok_after_stand(c: Cluster, id: u64)
    requires
        c.ok(),
        c.possible(Event::Stand { node: id }),
    ensures
        c.after(Event::Stand { node: id }).ok(),
        grows(c, c.after(Event::Stand { node: id })),
{
    standing_grows(c, id);
    standing_keeps_nodes(c, id);
    standing_keeps_ballots(c, id);
    standing_vouches(c, id);
    messages_stay(c, c.after_stand(id));
}

/// A node votes for a candidate only if that stood with what the node holds of earlier leaders,
/// unless it will never be committed.
proof fn vote_vouches(c: Cluster, id: u64, term: u64, candidate: u64, earlier: u64, k: int)
    requires
        c.ok(),
        c.members.contains(id),
        c.bids.contains_key((term, candidate)),
        rpc::grants_vote(c.nodes[id], c.bids[(term, candidate)].request),
        c.reigns.contains_key(earlier),
        earlier < term,
        c.own(earlier, k),
        k <= c.hold(earlier, id),
    ensures
        shares(c.lead(earlier), c.bids[(term, candidate)].log, k) || c.blocked(earlier, k),
{
    let s = c.nodes[id];
    let log = c.logs[id];
    let bid = c.bids[(term, candidate)].log;
    assert(c.node_ok(id));
    assert(c.bid_ok(term, candidate));
    covered_end(s, log);
    assert(c.keeps(earlier, id, k));
    if !shares(c.lead(earlier), log, k) {
        given_up_is_blocked(c, earlier, id, k);
    } else {
        share_at(c.lead(earlier), log, k, k - 1);
        rooted_rises(c, log);
        assert(last_term_of(log) >= earlier) by {
            reveal(rising);
            assert(log[k - 1].term <= log[log.len() - 1].term);
        }
        reveal(numbered);
        assert(bid.len() > 0);
        let last = bid[bid.len() - 1].term;
        rooted_at(c, bid, bid.len() as int);
        if last == earlier {
            share_less(c.lead(earlier), bid, bid.len() as int, k);
        } else {
            assert(c.inherits(earlier, last, k));
            if shares(c.lead(earlier), c.lead(last), k) {
                inherited_at_election(c, earlier, last, k);
                assert(c.reign_ok(last));
                share_at(c.lead(last), bid, bid.len() as int, bid.len() - 1);
                assert(bid.len() > c.reigns[last].base);
                share_through(c.lead(earlier), c.lead(last), bid, k, bid.len() as int);
            }
        }
    }
}

#[verifier::rlimit(60)]
proof fn ok_after_vote(c: Cluster, id: u64, term: u64, candidate: u64)
    requires
        c.ok(),
        c.possible(Event::Vote { node: id, term, candidate }),
    ensures
        c.after(Event::Vote { node: id, term, candidate }).ok(),
        grows(c, c.after(Event::Vote { node: id, term, candidate })),
{
    let s = c.nodes[id];
    let request = c.bids[(term, candidate)].request;
    let t = rpc::after_vote_request(s, request);
    let d = c.after_vote(id, term, candidate);
    assert(c.node_ok(id));
    assert(c.bid_ok(term, candidate));
    assert(d.nodes.dom() =~= c.nodes.dom());
    laws::vote_request_keeps_vote(s, request);
    if c.votes.contains_key((term, id)) {
        assert(c.vote_ok(term, id));
    }
    grows_at(c, d, id);
    inheritance_stays(c, d);
    messages_stay(c, d);
    leader_stays(c, d, id);
    committed_grows(c, d, id, t.commit_index as int);
    rooted_grows(c, d, c.logs[id]);
    holds_stay(c, d, id);
    assert(covers(t, c.logs[id])) by {
        reveal(covers);
    }
    assert(d.node_ok(id));
    others_ok_at(c, d, id);
    assert forall|at: u64, w: u64| #[trigger] d.bids.contains_key((at, w)) implies d.bid_ok(
        at,
        w,
    ) by {
        ballots_stay(c, d, at, w);
    }
    assert forall|at: u64, w: u64| #[trigger] d.votes.contains_key((at, w)) implies d.vote_ok(
        at,
        w,
    ) by {
        if c.votes.contains_key((at, w)) {
            assert(c.vote_ok(at, w));
            ballots_stay(c, d, at, w);
        }
    }
    assert forall|at: u64, w: u64| #[trigger] d.acks.contains_key((at, w)) implies d.ack_ok(
        at,
        w,
    ) by {
        ballots_stay(c, d, at, w);
    }
    assert forall|earlier: u64, later: u64, voter: u64, k: int|
        d.reigns.contains_key(earlier) && d.votes.contains_key((later, voter)) && earlier < later
            && d.own(earlier, k) && k <= d.hold(earlier, voter) implies #[trigger] d.vouches(
        earlier,
        later,
        voter,
        k,
    ) by {
        if !c.votes.contains_key((later, voter)) {
            assert(later == term && voter == id);
            assert(c.own(earlier, k));
            assert(d.hold(earlier, id) == c.hold(earlier, id));
            vote_vouches(c, id, term, candidate, earlier, k);
            if c.blocked(earlier, k) {
                blocked_grows(c, d, earlier, k);
            }
        }
    }
}

/// The election is won with the votes of a majority, and nobody else has won the same term.
proof fn winning_is_new(c: Cluster, id: u64, peers: Seq<u64>)
    requires
        c.ok(),
        c.possible(Event::Close { node: id, peers }),
        node::election_won(c.nodes[id], c.polls[id].election, peers.len()),
    ensures
        c.polls[id].election.term == c.term(id),
        is_quorum(c.members, c.polls[id].voters),
        !c.reigns.contains_key(c.term(id)),
{
    let poll = c.polls[id];
    let now = c.term(id);
    assert(c.node_ok(id));
    peers.unique_seq_to_set();
    assert(peers.len() == c.members.remove(id).len());
    assert(c.members.remove(id).len() == c.members.len() - 1);
    if c.reigns.contains_key(now) {
        assert(c.reign_ok(now));
        let w = quorums_meet(c.members, poll.voters, c.reigns[now].voters);
        assert(c.votes[(now, w)] == id);
        assert(c.votes[(now, w)] == c.reigns[now].leader);
    }
}

#[verifier::rlimit(60)]
proof fn winning_grows(c: Cluster, id: u64, peers: Seq<u64>)
    requires
        c.ok(),
        c.possible(Event::Close { node: id, peers }),
        node::election_won(c.nodes[id], c.polls[id].election, peers.len()),
    ensures
        grows(c, c.after_close(id, peers)),
        c.after_close(id, peers).reigns_ok(),
{
    let d = c.after_close(id, peers);
    let now = c.term(id);
    let log = c.logs[id];
    winning_is_new(c, id, peers);
    assert(c.node_ok(id));
    assert(d.nodes.dom() =~= c.nodes.dom());
    assert forall|term: u64| #[trigger] c.reigns.contains_key(term) implies reign_grows(
        c,
        d,
        term,
    ) by {
        share_take(c.lead(term), c.lead(term).len() as int, c.lead(term).len() as int);
    }
    assert forall|term: u64, w: u64|
        {
            &&& c.acked(term, w) <= #[trigger] d.acked(term, w)
            &&& c.members.contains(w) && c.term(w) > term ==> d.acked(term, w) == c.acked(term, w)
        } by {}
    assert(grows(c, d));
    assert forall|term: u64| #[trigger] d.reigns.contains_key(term) implies d.reign_ok(term) by {
        if c.reigns.contains_key(term) {
            assert(c.reign_ok(term));
            rooted_grows(c, d, c.lead(term));
        } else {
            assert(c.bid_ok(now, id));
            assert(log.take(log.len() as int) =~= log);
            rooted_rises(c, log);
            rooted_grows(c, d, log);
        }
    }
}

/// The winner starts to lead: every peer is to receive the entry after its last one.
proof fn winner_leads(c: Cluster, id: u64, peers: Seq<u64>)
    requires
        c.ok(),
        c.possible(Event::Close { node: id, peers }),
        node::election_won(c.nodes[id], c.polls[id].election, peers.len()),
    ensures
        c.after_close(id, peers).leader_ok(id),
{
    let d = c.after_close(id, peers);
    let t = d.nodes[id];
    winning_is_new(c, id, peers);
    assert(c.log_ok(id)) by {
        assert(c.node_ok(id));
    }
    covered_end(c.nodes[id], c.logs[id]);
    reveal(numbered);
    assert forall|p: u64| #[trigger] peers.contains(p) == c.members.remove(id).contains(p) by {
        assert(peers.to_set().contains(p) == peers.contains(p));
    }
    assert(t.match_index.dom() =~= c.members.remove(id));
    assert(t.next_index.dom() =~= c.members.remove(id));
}

/// The winner keeps what it held.
proof fn winner_holds(c: Cluster, id: u64, peers: Seq<u64>)
    requires
        c.ok(),
        c.possible(Event::Close { node: id, peers }),
        node::election_won(c.nodes[id], c.polls[id].election, peers.len()),
    ensures
        c.after_close(id, peers).hold_ok(id),
{
    let d = c.after_close(id, peers);
    let log = c.logs[id];
    winning_is_new(c, id, peers);
    winning_grows(c, id, peers);
    assert(c.hold_ok(id)) by {
        assert(c.node_ok(id));
    }
    assert forall|term: u64, k: int|
        d.reigns.contains_key(term) && 0 <= k <= d.hold(term, id) implies #[trigger] d.keeps(
        term,
        id,
        k,
    ) by {
        if term == c.term(id) {
            share_take(log, log.len() as int, k);
        } else {
            assert(d.hold(term, id) == c.hold(term, id));
            hold_bounds(c, term, id);
            assert(c.keeps(term, id, k));
            keeps_grows(c, d, term, id, k);
        }
    }
}

#[verifier::rlimit(60)]
proof fn winning_keeps_nodes(c: Cluster, id: u64, peers: Seq<u64>)
    requires
        c.ok(),
        c.possible(Event::Close { node: id, peers }),
        node::election_won(c.nodes[id], c.polls[id].election, peers.len()),
    ensures
        c.after_close(id, peers).nodes_ok(),
{
    let d = c.after_close(id, peers);
    let t = d.nodes[id];
    let log = c.logs[id];
    winning_is_new(c, id, peers);
    winning_grows(c, id, peers);
    assert(d.node_ok(id)) by {
        assert(c.node_ok(id));
        winner_leads(c, id, peers);
        winner_holds(c, id, peers);
        committed_grows(c, d, id, t.commit_index as int);
        rooted_grows(c, d, log);
        assert(covers(t, log)) by {
            reveal(covers);
        }
    }
    assert forall|w: u64| #[trigger] d.members.contains(w) implies d.node_ok(w) by {
        if w != id {
            assert(c.node_ok(w));
            untouched(c, d, w);
        }
    }
}

/// A leader has what may be committed of all earlier leaders.
proof fn winning_inherits(c: Cluster, id: u64, peers: Seq<u64>, earlier: u64, k: int)
    requires
        c.ok(),
        c.possible(Event::Close { node: id, peers }),
        node::election_won(c.nodes[id], c.polls[id].election, peers.len()),
        c.reigns.contains_key(earlier),
        earlier < c.term(id),
        c.own(earlier, k),
    ensures
        shares(c.lead(earlier), c.logs[id], k) || c.blocked(earlier, k),
{
    let now = c.term(id);
    let voters = c.polls[id].voters;
    winning_is_new(c, id, peers);
    assert(c.node_ok(id));
    if exists|w: u64| #[trigger] voters.contains(w) && c.hold(earlier, w) >= k {
        let w = choose|w: u64| #[trigger] voters.contains(w) && c.hold(earlier, w) >= k;
        assert(c.votes.contains_key((now, w)));
        assert(c.vouches(earlier, now, w, k));
    } else {
        assert forall|w: u64| #[trigger] voters.contains(w) implies c.term(w) > earlier && c.hold(
            earlier,
            w,
        ) < k by {
            assert(c.votes.contains_key((now, w)));
            assert(c.vote_ok(now, w));
        }
        assert(c.missed_by(earlier, k, voters));
    }
}

proof fn winning_keeps_inheritance(c: Cluster, id: u64, peers: Seq<u64>)
    requires
        c.ok(),
        c.possible(Event::Close { node: id, peers }),
        node::election_won(c.nodes[id], c.polls[id].election, peers.len()),
    ensures
        c.after_close(id, peers).inherits_ok(),
        c.after_close(id, peers).vouches_ok(),
{
    let d = c.after_close(id, peers);
    let now = c.term(id);
    winning_is_new(c, id, peers);
    winning_grows(c, id, peers);
    assert(c.node_ok(id));
    assert(d.reign_ok(now)) by {
        assert(d.reigns.contains_key(now));
    }
    assert forall|earlier: u64, later: u64, k: int|
        d.reigns.contains_key(earlier) && d.reigns.contains_key(later) && earlier < later && d.own(
            earlier,
            k,
        ) implies #[trigger] d.inherits(earlier, later, k) by {
        assert(earlier != now);
        assert(c.reigns.contains_key(earlier) && c.own(earlier, k));
        if later == now {
            winning_inherits(c, id, peers, earlier, k);
            if c.blocked(earlier, k) {
                blocked_grows(c, d, earlier, k);
            }
        } else {
            assert(c.inherits(earlier, later, k));
            inherits_grows(c, d, earlier, later, k);
        }
    }
    assert forall|earlier: u64, later: u64, voter: u64, k: int|
        d.reigns.contains_key(earlier) && d.votes.contains_key((later, voter)) && earlier < later
            && d.own(earlier, k) && k <= d.hold(earlier, voter) implies #[trigger] d.vouches(
        earlier,
        later,
        voter,
        k,
    ) by {
        assert(earlier != now);
        assert(c.reigns.contains_key(earlier) && c.own(earlier, k));
        vouches_grows(c, d, earlier, later, voter, k);
    }
}

#[verifier::rlimit(60)]
proof fn ok_after_close(c: Cluster, id: u64, peers: Seq<u64>)
    requires
        c.ok(),
        c.possible(Event::Close { node: id, peers }),
    ensures
        c.after(Event::Close { node: id, peers }).ok(),
        grows(c, c.after(Event::Close { node: id, peers })),
{
    let d = c.after_close(id, peers);
    assert(c.node_ok(id));
    if node::election_won(c.nodes[id], c.polls[id].election, peers.len()) {
        winning_grows(c, id, peers);
        winning_keeps_nodes(c, id, peers);
        winning_keeps_inheritance(c, id, peers);
        messages_stay(c, d);
        ballots_all_stay(c, d);
    } else {
        let t = node::after_election(c.nodes[id], c.polls[id].election, id, peers);
        assert(covers(t, c.logs[id])) by {
            reveal(covers);
        }
        quiet(c, id, t);
    }
}

/// Elections, votes and acknowledgements stay in order where nothing is added to them.
proof fn ballots_all_stay(c: Cluster, d: Cluster)
    requires
        c.ok(),
        grows(c, d),
        d.bids == c.bids,
        d.votes == c.votes,
        d.acks == c.acks,
        forall|w: u64| #[trigger] c.members.contains(w) ==> laws::vote_kept(c.nodes[w], d.nodes[w]),
    ensures
        d.ballots_ok(),
{
    assert forall|term: u64, w: u64| #[trigger] d.bids.contains_key((term, w)) implies d.bid_ok(
        term,
        w,
    ) by {
        ballots_stay(c, d, term, w);
    }
    assert forall|term: u64, w: u64| #[trigger] d.votes.contains_key((term, w)) implies d.vote_ok(
        term,
        w,
    ) by {
        assert(c.vote_ok(term, w));
        assert(c.members.contains(w));
        ballots_stay(c, d, term, w);
    }
    assert forall|term: u64, w: u64| #[trigger] d.acks.contains_key((term, w)) implies d.ack_ok(
        term,
        w,
    ) by {
        ballots_stay(c, d, term, w);
    }
}

// ---------------------------------------------------------------------------
// Proposals
// ---------------------------------------------------------------------------

/// A log with one more entry shares what it had.
pub(crate) proof fn share_push(log: Seq<EntryView>, entry: EntryView)
    ensures
        shares(log, log.push(entry), log.len() as int),
{
    reveal(shares);
}

/// The cluster after a leader appended a command, before it looked for what it may commit.
spec fn appended_only(c: Cluster, id: u64, command: CommandView) -> Cluster {
    let s = c.nodes[id];
    let t = s.appended(command);
    let log = c.logs[id].push(rpc::entry_to_ms(t.log.last()));
    Cluster {
        logs: c.logs.insert(id, log),
        reigns: c.reigns.insert(s.current_term, Reign { log, ..c.reigns[s.current_term] }),
        ..c.with_node(id, t)
    }
}

#[verifier::rlimit(60)]
proof fn proposing_grows(c: Cluster, id: u64, command: CommandView)
    requires
        c.ok(),
        c.possible(Event::Propose { node: id, command }),
        c.nodes[id].role is Leader,
    ensures
        grows(c, appended_only(c, id, command)),
        appended_only(c, id, command).reigns_ok(),
        appended_only(c, id, command).rooted(appended_only(c, id, command).logs[id]),
        numbered(appended_only(c, id, command).logs[id]),
{
    let d = appended_only(c, id, command);
    let s = c.nodes[id];
    let now = s.current_term;
    let log = c.logs[id];
    let longer = d.logs[id];
    assert(c.node_ok(id));
    assert(c.reign_ok(now));
    covered_end(s, log);
    share_push(log, longer.last());
    assert(d.nodes.dom() =~= c.nodes.dom());
    assert(d.logs.dom() =~= c.logs.dom());
    assert(d.reigns.dom() =~= c.reigns.dom());
    assert forall|term: u64| #[trigger] c.reigns.contains_key(term) implies reign_grows(
        c,
        d,
        term,
    ) by {
        share_take(c.lead(term), c.lead(term).len() as int, c.lead(term).len() as int);
    }
    assert forall|term: u64, w: u64|
        {
            &&& c.acked(term, w) <= #[trigger] d.acked(term, w)
            &&& c.members.contains(w) && c.term(w) > term ==> d.acked(term, w) == c.acked(term, w)
        } by {}
    assert(grows(c, d));
    assert(numbered(longer)) by {
        reveal(numbered);
    }
    assert(d.rooted(longer)) by {
        rooted_grows(c, d, log);
        reveal(Cluster::rooted);
        assert forall|i: int| 0 <= i < longer.len() implies d.reigns.contains_key(
            (#[trigger] longer[i]).term,
        ) && shares(d.lead(longer[i].term), longer, i + 1) by {
            if i < log.len() {
                assert(longer[i] == log[i]);
                share_through(d.lead(log[i].term), log, longer, i + 1, log.len() as int);
            } else {
                share_take(longer, longer.len() as int, longer.len() as int);
            }
        }
    }
    assert forall|term: u64| #[trigger] d.reigns.contains_key(term) implies d.reign_ok(term) by {
        assert(c.reign_ok(term));
        if term == now {
            let base = c.reigns[now].base as int;
            assert(longer.take(base) =~= log.take(base));
            assert(rising(longer)) by {
                reveal(rising);
            }
        } else {
            rooted_grows(c, d, c.lead(term));
        }
    }
}

#[verifier::rlimit(60)]
proof fn proposing_keeps_nodes(c: Cluster, id: u64, command: CommandView)
    requires
        c.ok(),
        c.possible(Event::Propose { node: id, command }),
        c.nodes[id].role is Leader,
    ensures
        appended_only(c, id, command).nodes_ok(),
{
    let d = appended_only(c, id, command);
    let s = c.nodes[id];
    let t = d.nodes[id];
    let now = s.current_term;
    let log = c.logs[id];
    let longer = d.logs[id];
    assert(c.node_ok(id));
    assert(c.reign_ok(now));
    proposing_grows(c, id, command);
    share_push(log, longer.last());
    covered_end(s, log);
    laws::append_keeps_sound(s, command);
    assert(covers(t, longer)) by {
        reveal(covers);
    }
    assert(d.leader_ok(id)) by {
        assert forall|p: u64| #[trigger] s.match_index.contains_key(p) implies d.matched(
            now,
            p,
            s.match_index[p] as int,
        ) by {
            matched_grows(c, d, now, p, s.match_index[p] as int);
        }
    }
    assert(d.committed(id, t.commit_index as int)) by {
        let m = t.commit_index as int;
        if m != 0 {
            let term = choose|term: u64| #[trigger] c.committed_by(id, m, term);
            settled_grows(c, d, term, m);
            hold_grows(c, d, term, id);
            share_bounds(c.lead(term), log, m);
            share_through(c.lead(term), log, longer, m, log.len() as int);
            lead_grows(c, d, term, longer, m);
            assert(d.committed_by(id, m, term));
        }
    }
    assert forall|term: u64, k: int|
        d.reigns.contains_key(term) && 0 <= k <= d.hold(term, id) implies #[trigger] d.keeps(
        term,
        id,
        k,
    ) by {
        if term == now {
            share_take(longer, longer.len() as int, k);
        } else {
            assert(d.hold(term, id) == c.hold(term, id));
            hold_bounds(c, term, id);
            assert(c.keeps(term, id, k));
            if shares(c.lead(term), log, k) {
                share_bounds(c.lead(term), log, k);
                share_through(c.lead(term), log, longer, k, log.len() as int);
                lead_grows(c, d, term, longer, k);
            } else {
                let later = choose|later: u64| #[trigger]
                    c.overrides(term, later, k) && later <= c.term(id);
                overrides_grows(c, d, term, later, k);
                assert(d.overrides(term, later, k) && later <= d.term(id));
            }
        }
    }
    assert(d.node_ok(id));
    assert forall|w: u64| #[trigger] d.members.contains(w) implies d.node_ok(w) by {
        if w != id {
            assert(c.node_ok(w));
            assert forall|term: u64| c.reigns.contains_key(term) implies #[trigger] d.hold(term, w)
                == c.hold(term, w) by {}
            untouched(c, d, w);
        }
    }
}

proof fn proposing_keeps_inheritance(c: Cluster, id: u64, command: CommandView)
    requires
        c.ok(),
        c.possible(Event::Propose { node: id, command }),
        c.nodes[id].role is Leader,
    ensures
        appended_only(c, id, command).inherits_ok(),
        appended_only(c, id, command).vouches_ok(),
{
    let d = appended_only(c, id, command);
    let now = c.term(id);
    assert(c.node_ok(id));
    assert(c.reign_ok(now));
    proposing_grows(c, id, command);
    assert forall|earlier: u64, later: u64, k: int|
        d.reigns.contains_key(earlier) && d.reigns.contains_key(later) && earlier < later && d.own(
            earlier,
            k,
        ) implies #[trigger] d.inherits(earlier, later, k) by {
        if earlier == now && k > c.lead(now).len() {
            let voters = d.reigns[later].voters;
            assert(c.reign_ok(later));
            assert forall|w: u64| #[trigger] voters.contains(w) implies d.term(w) > now && d.hold(
                now,
                w,
            ) < k by {
                assert(c.votes.contains_key((later, w)));
                assert(c.vote_ok(later, w));
                assert(w != id);
                hold_bounds(c, now, w);
            }
            assert(d.missed_by(now, k, voters));
        } else {
            assert(c.own(earlier, k));
            assert(c.inherits(earlier, later, k));
            inherits_grows(c, d, earlier, later, k);
        }
    }
    assert forall|earlier: u64, later: u64, voter: u64, k: int|
        d.reigns.contains_key(earlier) && d.votes.contains_key((later, voter)) && earlier < later
            && d.own(earlier, k) && k <= d.hold(earlier, voter) implies #[trigger] d.vouches(
        earlier,
        later,
        voter,
        k,
    ) by {
        if earlier == now && k > c.lead(now).len() {
            assert(c.vote_ok(later, voter));
            assert(voter != id);
            hold_bounds(c, now, voter);
            assert(false);
        } else {
            assert(c.own(earlier, k));
            vouches_grows(c, d, earlier, later, voter, k);
        }
    }
}

#[verifier::rlimit(60)]
proof fn ok_after_propose(c: Cluster, id: u64, command: CommandView)
    requires
        c.ok(),
        c.possible(Event::Propose { node: id, command }),
    ensures
        c.after(Event::Propose { node: id, command }).ok(),
        grows(c, c.after(Event::Propose { node: id, command })),
{
    let d = c.after_propose(id, command);
    if c.nodes[id].role is Leader {
        let e = appended_only(c, id, command);
        let u = e.nodes[id];
        let t = node::commit_advanced(u);
        proposing_grows(c, id, command);
        proposing_keeps_nodes(c, id, command);
        proposing_keeps_inheritance(c, id, command);
        messages_stay(c, e);
        ballots_all_stay(c, e);
        assert(e.ok());
        assert(e.node_ok(id));
        laws::append_keeps_sound(c.nodes[id], command);
        advancing_is_committed(e, id, u);
        assert(covers(t, e.logs[id])) by {
            reveal(covers);
        }
        quiet(e, id, t);
        assert(e.with_node(id, t).nodes =~= d.nodes);
        assert(e.with_node(id, t) == d);
        proposal_grows(c, e, d, id);
    } else {
        grows_at(c, c, id);
    }
}

/// Committing after an append adds nothing to the records.
proof fn proposal_grows(c: Cluster, e: Cluster, d: Cluster, id: u64)
    requires
        grows(c, e),
        grows(e, d),
        d == e.with_node(id, d.nodes[id]),
        d.nodes[id].current_term == e.nodes[id].current_term,
    ensures
        grows(c, d),
{
    assert forall|term: u64| #[trigger] c.reigns.contains_key(term) implies reign_grows(
        c,
        d,
        term,
    ) by {
        assert(reign_grows(c, e, term));
    }
    assert forall|term: u64, w: u64|
        {
            &&& c.acked(term, w) <= #[trigger] d.acked(term, w)
            &&& c.members.contains(w) && c.term(w) > term ==> d.acked(term, w) == c.acked(term, w)
        } by {
        assert(d.acked(term, w) == e.acked(term, w));
    }
    assert forall|w: u64| #[trigger] c.members.contains(w) implies c.term(w) <= d.term(w) by {
        assert(e.members.contains(w));
    }
}

// ---------------------------------------------------------------------------
// Requests
// ---------------------------------------------------------------------------

/// What a leader has committed is committed by way of its own log.
proof fn leader_has_settled(c: Cluster, id: u64, m: int)
    requires
        c.ok(),
        c.members.contains(id),
        c.nodes[id].role is Leader,
        0 < m,
        c.committed(id, m),
    ensures
        c.settled(c.term(id), m),
{
    let now = c.term(id);
    assert(c.node_ok(id));
    let term = choose|term: u64| #[trigger] c.committed_by(id, m, term);
    let (from, k) = choose|from: u64, k: int| #[trigger] c.settled_by(term, m, from, k);
    share_through(c.lead(from), c.lead(term), c.lead(now), m, m);
    assert(c.settled_by(now, m, from, k));
}

proof fn sent_entries_ok(c: Cluster, id: u64, peer: u64)
    requires
        c.ok(),
        c.possible(Event::Send { node: id, peer }),
        !node::needs_snapshot(c.nodes[id], peer),
    ensures
        c.append_ok(node::append_request(c.nodes[id], id, peer)),
{
    let s = c.nodes[id];
    let log = c.logs[id];
    let request = node::append_request(s, id, peer);
    let prev = request.prev_log_index as int;
    let entries = rpc::decode_entries(request.entries);
    assert(c.node_ok(id));
    assert(c.reign_ok(s.current_term));
    covered_end(s, log);
    assert(s.match_index.contains_key(peer));
    laws::requests_carry_the_log(s, id, peer);
    if prev > 0 {
        if s.has_entry(prev) {
            covered_entry(s, log, prev);
        } else {
            assert(prev == s.log_offset);
            reveal(covers);
        }
    }
    assert forall|i: int| 0 <= i < entries.len() implies rpc::entry_to_ms(#[trigger] entries[i])
        == log[prev + i] by {
        covered_entry(s, log, prev + 1 + i);
        laws::to_ms_twice(s.entry(prev + 1 + i));
    }
    if request.leader_commit > 0 {
        leader_has_settled(c, id, request.leader_commit as int);
    }
}

proof fn sent_snapshot_ok(c: Cluster, id: u64, peer: u64)
    requires
        c.ok(),
        c.possible(Event::Send { node: id, peer }),
        node::needs_snapshot(c.nodes[id], peer),
    ensures
        c.snapshot_ok(
            rpc::encode_snapshot(c.nodes[id].snapshot->0, c.term(id), id),
        ),
{
    let s = c.nodes[id];
    let log = c.logs[id];
    assert(c.node_ok(id));
    assert(c.reign_ok(s.current_term));
    reveal(covers);
    committed_less(c, id, s.commit_index as int, s.log_offset as int);
    leader_has_settled(c, id, s.log_offset as int);
}

/// A new request that is in order leaves all messages in order.
proof fn sending_keeps_messages(c: Cluster, d: Cluster, id: u64)
    requires
        c.ok(),
        c.members.contains(id),
        d == (Cluster { appends: d.appends, snapshots: d.snapshots, ..c }),
        forall|request: AppendMessage| #[trigger]
            d.appends.contains(request) ==> c.append_ok(request),
        forall|request: SnapshotMessage| #[trigger]
            d.snapshots.contains(request) ==> c.snapshot_ok(request),
    ensures
        d.messages_ok(),
{
    sending_is_quiet(c, d, id);
    messages_stay(c, d);
    assert forall|request: AppendMessage| #[trigger]
        d.appends.contains(request) implies d.append_ok(request) by {
        if request.leader_commit > 0 {
            settled_grows(c, d, request.term, request.leader_commit as int);
        }
    }
    assert forall|request: SnapshotMessage| #[trigger]
        d.snapshots.contains(request) implies d.snapshot_ok(request) by {
        settled_grows(c, d, request.term, request.last_included_index as int);
    }
}

proof fn sending_is_ok(c: Cluster, d: Cluster, id: u64)
    requires
        c.ok(),
        c.members.contains(id),
        d == (Cluster { appends: d.appends, snapshots: d.snapshots, ..c }),
        d.messages_ok(),
    ensures
        d.ok(),
        grows(c, d),
{
    sending_is_quiet(c, d, id);
    assert forall|term: u64| #[trigger] d.acks.contains_key((term, id)) implies d.ack_ok(
        term,
        id,
    ) by {
        ballots_stay(c, d, term, id);
    }
    ok_at(c, d, id);
}

proof fn append_is_sent(c: Cluster, id: u64, request: AppendMessage)
    requires
        c.ok(),
        c.members.contains(id),
        c.append_ok(request),
    ensures
        (Cluster { appends: c.appends.insert(request), ..c }).ok(),
        grows(c, (Cluster { appends: c.appends.insert(request), ..c })),
{
    let d = Cluster { appends: c.appends.insert(request), ..c };
    sending_keeps_messages(c, d, id);
    sending_is_ok(c, d, id);
}

proof fn snapshot_is_sent(c: Cluster, id: u64, request: SnapshotMessage)
    requires
        c.ok(),
        c.members.contains(id),
        c.snapshot_ok(request),
    ensures
        (Cluster { snapshots: c.snapshots.insert(request), ..c }).ok(),
        grows(c, (Cluster { snapshots: c.snapshots.insert(request), ..c })),
{
    let d = Cluster { snapshots: c.snapshots.insert(request), ..c };
    sending_keeps_messages(c, d, id);
    sending_is_ok(c, d, id);
}

#[verifier::rlimit(60)]
proof fn ok_after_send(c: Cluster, id: u64, peer: u64)
    requires
        c.ok(),
        c.possible(Event::Send { node: id, peer }),
    ensures
        c.after(Event::Send { node: id, peer }).ok(),
        grows(c, c.after(Event::Send { node: id, peer })),
{
    let s = c.nodes[id];
    let d = c.after(Event::Send { node: id, peer });
    if node::needs_snapshot(s, peer) {
        let request = rpc::encode_snapshot(s.snapshot->0, s.current_term, id);
        assert(d == (Cluster { snapshots: c.snapshots.insert(request), ..c }));
        assert(c.snapshot_ok(request)) by {
            sent_snapshot_ok(c, id, peer);
        }
        snapshot_is_sent(c, id, request);
    } else {
        let request = node::append_request(s, id, peer);
        assert(d == (Cluster { appends: c.appends.insert(request), ..c }));
        assert(c.append_ok(request)) by {
            sent_entries_ok(c, id, peer);
        }
        append_is_sent(c, id, request);
    }
}

/// A request under way changes no node.
proof fn sending_is_quiet(c: Cluster, d: Cluster, id: u64)
    requires
        c.ok(),
        c.members.contains(id),
        d == (Cluster { appends: d.appends, snapshots: d.snapshots, ..c }),
    ensures
        grows(c, d),
        d.reigns_ok(),
        d.node_ok(id),
{
    grows_at(c, d, id);
    assert(c.node_ok(id));
    assert forall|term: u64| c.reigns.contains_key(term) implies #[trigger] d.hold(term, id)
        == c.hold(term, id) by {}
    untouched(c, d, id);
}

// ---------------------------------------------------------------------------
// What followers take over
// ---------------------------------------------------------------------------

/// What a node has committed is in the log of every leader of its term or a later one, and that
/// leader had it when it was elected, or the node has it from that leader.
proof fn committed_is_led(c: Cluster, id: u64, m: int, term: u64)
    requires
        c.ok(),
        c.members.contains(id),
        c.committed(id, m),
        0 <= m,
        c.reigns.contains_key(term),
        c.term(id) <= term,
    ensures
        shares(c.lead(term), c.logs[id], m),
        m <= c.reigns[term].base || m <= c.hold(term, id),
{
    if m == 0 {
        share_none(c.lead(term), c.logs[id]);
    } else {
        let by = choose|by: u64| #[trigger] c.committed_by(id, m, by);
        if by != term {
            settled_is_led(c, by, m, term);
            share_through(c.lead(term), c.lead(by), c.logs[id], m, m);
        }
    }
}

/// What is committed of the leader of a term is in the log of every later leader.
pub(crate) proof fn settled_is_led(c: Cluster, term: u64, m: int, later: u64)
    requires
        c.ok(),
        c.settled(term, m),
        0 <= m,
        c.reigns.contains_key(later),
        term < later,
    ensures
        shares(c.lead(later), c.lead(term), m),
        m <= c.reigns[later].base,
{
    let (from, k) = choose|from: u64, k: int| #[trigger] c.settled_by(term, m, from, k);
    safe_is_not_blocked(c, from, k);
    assert(c.inherits(from, later, k));
    inherited_at_election(c, from, later, k);
    share_less(c.lead(from), c.lead(later), k, m);
    share_through(c.lead(later), c.lead(from), c.lead(term), m, m);
}

/// What is committed by way of the leader of a term is committed by way of every later one.
proof fn settled_carries(c: Cluster, term: u64, m: int, later: u64)
    requires
        c.ok(),
        c.settled(term, m),
        0 <= m,
        c.reigns.contains_key(later),
        term < later,
    ensures
        c.settled(later, m),
{
    let (from, k) = choose|from: u64, k: int| #[trigger] c.settled_by(term, m, from, k);
    settled_is_led(c, term, m, later);
    share_swap(c.lead(later), c.lead(term), m);
    share_through(c.lead(from), c.lead(term), c.lead(later), m, m);
    assert(c.settled_by(later, m, from, k));
}

/// A cut log shares what is left of it.
pub(crate) proof fn share_cut(a: Seq<EntryView>, b: Seq<EntryView>, n: int, k: int)
    requires
        shares(a, b, k),
        k <= n <= b.len(),
    ensures
        shares(a, b.take(n), k),
{
    share_bounds(a, b, k);
    share_take(b, n, k);
    share_through(a, b, b.take(n), k, k);
}

/// A cut log is still numbered and rooted.
proof fn cut_log(c: Cluster, log: Seq<EntryView>, n: int)
    requires
        c.rooted(log),
        numbered(log),
        0 <= n <= log.len(),
    ensures
        c.rooted(log.take(n)),
        numbered(log.take(n)),
{
    reveal(numbered);
    let cut = log.take(n);
    assert forall|i: int| 0 <= i < cut.len() implies c.reigns.contains_key((#[trigger] cut[i]).term)
        && shares(c.lead(cut[i].term), cut, i + 1) by {
        rooted_at(c, log, i + 1);
        assert(cut[i] == log[i]);
        share_cut(c.lead(log[i].term), log, n, i + 1);
    }
    assert(c.rooted(cut)) by {
        reveal(Cluster::rooted);
    }
}

/// A state that covers a numbered log is sound.
proof fn covering_is_sound(t: StateView, log: Seq<EntryView>)
    requires
        covers(t, log),
        numbered(log),
        t.snapshot is Some <==> t.log_offset > 0,
        t.snapshot is Some ==> t.snapshot->0.last_included_index == t.log_offset,
        t.log_offset <= t.last_applied <= t.commit_index <= log.len(),
    ensures
        laws::sound(t),
{
    reveal(covers);
    reveal(numbered);
    assert forall|i: int| 0 <= i < t.log.len() implies (#[trigger] t.log[i]).index == t.log_offset
        + i + 1 by {
        assert(rpc::entry_to_ms(t.log[i]) == log[t.log_offset + i]);
    }
}

/// Where a node's log holds an entry of the same term as the leader's log, they agree up to it.
proof fn same_term_agrees(c: Cluster, id: u64, term: u64, index: int)
    requires
        c.ok(),
        c.members.contains(id),
        c.reigns.contains_key(term),
        1 <= index <= c.lead(term).len(),
        index <= c.logs[id].len(),
        c.lead(term)[index - 1].term == c.logs[id][index - 1].term,
    ensures
        shares(c.lead(term), c.logs[id], index),
{
    let log = c.logs[id];
    let by = log[index - 1].term;
    assert(c.node_ok(id));
    assert(c.reign_ok(term));
    rooted_at(c, log, index);
    rooted_at(c, c.lead(term), index);
    share_swap(c.lead(by), c.lead(term), index);
    share_through(c.lead(term), c.lead(by), log, index, index);
}

/// A node that takes over a leader's log up to `end` keeps what it held, or follows a leader
/// without it.
proof fn holds_after_taking(c: Cluster, d: Cluster, id: u64, term: u64, end: int)
    requires
        c.ok(),
        grows(c, d),
        d.reigns_ok(),
        d.reigns == c.reigns,
        c.members.contains(id),
        c.reigns.contains_key(term),
        c.reigns[term].leader != id,
        c.term(id) <= term,
        d.term(id) == term,
        shares(c.lead(term), d.logs[id], end),
        0 <= end,
        d.acked(term, id) <= end || d.acked(term, id) == c.acked(term, id),
        forall|other: u64|
            other != term ==> #[trigger] d.acked(other, id) == c.acked(other, id),
        d.logs[id] == c.logs[id] || forall|other: u64, k: int|
            #![trigger shares(c.lead(other), c.logs[id], k)]
            c.reigns.contains_key(other) && other <= term && end < k <= c.hold(other, id) ==> !(
            shares(c.lead(other), c.logs[id], k) && shares(c.lead(other), c.lead(term), k)),
    ensures
        d.hold_ok(id),
{
    let log = c.logs[id];
    assert(c.node_ok(id));
    assert forall|other: u64, k: int|
        d.reigns.contains_key(other) && 0 <= k <= d.hold(other, id) implies #[trigger] d.keeps(
        other,
        id,
        k,
    ) by {
        if k == 0 {
            share_none(d.lead(other), d.logs[id]);
        } else if other == term && k <= end {
            share_less(c.lead(term), d.logs[id], end, k);
        } else {
            if other != term {
                assert(d.acked(other, id) == c.acked(other, id));
            }
            hold_bounds(c, other, id);
            assert(other <= c.term(id));
            assert(c.keeps(other, id, k));
            if shares(c.lead(other), log, k) {
                if d.logs[id] != log {
                    if shares(c.lead(other), c.lead(term), k) {
                        assert(k <= end);
                        share_through(c.lead(other), c.lead(term), d.logs[id], k, end);
                    } else {
                        if other == term {
                            share_take(c.lead(term), c.lead(term).len() as int, k);
                        }
                        assert(d.overrides(other, term, k) && term <= d.term(id));
                    }
                }
            } else {
                let later = choose|later: u64| #[trigger]
                    c.overrides(other, later, k) && later <= c.term(id);
                overrides_grows(c, d, other, later, k);
                assert(d.overrides(other, later, k) && later <= d.term(id));
            }
        }
    }
}

/// A node that cuts its log off before an entry that the leader has otherwise keeps what it held,
/// or follows a leader without it.
proof fn holds_after_cutting(c: Cluster, d: Cluster, id: u64, term: u64, n: int)
    requires
        c.ok(),
        grows(c, d),
        d.reigns_ok(),
        d.reigns == c.reigns,
        c.members.contains(id),
        c.reigns.contains_key(term),
        c.term(id) <= term,
        d.term(id) == term,
        0 <= n < c.logs[id].len(),
        n < c.lead(term).len(),
        c.lead(term)[n] != c.logs[id][n],
        d.logs[id] == c.logs[id].take(n),
        forall|other: u64| #[trigger] d.acked(other, id) == c.acked(other, id),
    ensures
        d.hold_ok(id),
{
    let log = c.logs[id];
    assert(c.node_ok(id));
    assert forall|other: u64, k: int|
        d.reigns.contains_key(other) && 0 <= k <= d.hold(other, id) implies #[trigger] d.keeps(
        other,
        id,
        k,
    ) by {
        assert(d.acked(other, id) == c.acked(other, id));
        hold_bounds(c, other, id);
        assert(c.keeps(other, id, k));
        if shares(c.lead(other), log, k) {
            if k <= n {
                share_cut(c.lead(other), log, n, k);
            } else {
                share_at(c.lead(other), log, k, n);
                if shares(c.lead(other), c.lead(term), k) {
                    share_at(c.lead(other), c.lead(term), k, n);
                }
                assert(d.overrides(other, term, k) && term <= d.term(id));
            }
        } else {
            let later = choose|later: u64| #[trigger]
                c.overrides(other, later, k) && later <= c.term(id);
            overrides_grows(c, d, other, later, k);
            assert(d.overrides(other, later, k) && later <= d.term(id));
        }
    }
}

/// What a node has committed stays committed where it keeps that part of its log, or takes it
/// over from a leader.
proof fn commits_after_taking(c: Cluster, d: Cluster, id: u64, term: u64, m: int)
    requires
        c.ok(),
        grows(c, d),
        c.members.contains(id),
        c.reigns.contains_key(term),
        c.term(id) <= term,
        0 <= m,
        c.committed(id, m),
        shares(c.logs[id], d.logs[id], m) || shares(c.lead(term), d.logs[id], m),
    ensures
        d.committed(id, m),
{
    if m != 0 {
        let by = choose|by: u64| #[trigger] c.committed_by(id, m, by);
        settled_grows(c, d, by, m);
        hold_grows(c, d, by, id);
        if !shares(c.logs[id], d.logs[id], m) {
            committed_is_led(c, id, m, term);
            share_swap(c.lead(term), c.logs[id], m);
            share_through(c.logs[id], c.lead(term), d.logs[id], m, m);
        }
        share_through(c.lead(by), c.logs[id], d.logs[id], m, m);
        lead_grows(c, d, by, d.logs[id], m);
        assert(d.committed_by(id, m, by));
    }
}

// ---------------------------------------------------------------------------
// Entries arrive
// ---------------------------------------------------------------------------

/// A node that accepts entries agrees with the leader up to the entry before them, and up to
/// what it has committed.
proof fn accepting_agrees(c: Cluster, id: u64, request: AppendMessage)
    requires
        c.ok(),
        c.possible(Event::Append { node: id, request }),
        rpc::accepts_entries(c.nodes[id], request),
    ensures
        c.term(id) <= request.term,
        c.reigns[request.term].leader != id,
        c.committed(id, c.nodes[id].commit_index as int),
        shares(c.lead(request.term), c.logs[id], request.prev_log_index as int),
        shares(c.lead(request.term), c.logs[id], c.nodes[id].commit_index as int),
{
    let s = c.nodes[id];
    let term = request.term;
    let prev = request.prev_log_index as int;
    assert(c.node_ok(id));
    assert(c.append_ok(request));
    committed_is_led(c, id, s.commit_index as int, term);
    if prev == 0 {
        share_none(c.lead(term), c.logs[id]);
    } else if prev <= s.log_offset {
        share_less(c.lead(term), c.logs[id], s.commit_index as int, prev);
    } else {
        covered_entry(s, c.logs[id], prev);
        same_term_agrees(c, id, term, prev);
    }
}

/// Where a node's log has an entry that it accepts, it agrees with the leader up to that entry.
proof fn held_entry_agrees(c: Cluster, id: u64, request: AppendMessage, i: int)
    requires
        c.ok(),
        c.possible(Event::Append { node: id, request }),
        rpc::accepts_entries(c.nodes[id], request),
        0 <= i < request.entries.len(),
        rpc::holds_entry(c.nodes[id], rpc::decode_entries(request.entries)[i]),
    ensures
        shares(c.lead(request.term), c.logs[id], request.prev_log_index + 1 + i),
{
    let s = c.nodes[id];
    let lead = c.lead(request.term);
    let index = request.prev_log_index + 1 + i;
    let e = rpc::decode_entries(request.entries)[i];
    accepting_agrees(c, id, request);
    assert(c.node_ok(id));
    assert(c.append_ok(request));
    assert(c.reign_ok(request.term));
    assert(rpc::entry_to_ms(e) == lead[index - 1]);
    reveal(numbered);
    assert(e.index == index);
    if index <= s.log_offset {
        share_less(lead, c.logs[id], s.commit_index as int, index);
    } else {
        covered_entry(s, c.logs[id], index);
        same_term_agrees(c, id, request.term, index);
    }
}

/// The index of the first entry that is news to a node: up to there it agrees with the leader,
/// and it has committed nothing there.
#[verifier::rlimit(60)]
proof fn first_news(c: Cluster, id: u64, request: AppendMessage) -> (from: int)
    requires
        c.ok(),
        c.possible(Event::Append { node: id, request }),
        rpc::accepts_entries(c.nodes[id], request),
        rpc::news(c.nodes[id], rpc::decode_entries(request.entries)).len() > 0,
    ensures
        request.prev_log_index < from <= rpc::end_of(request),
        c.nodes[id].commit_index < from,
        shares(c.lead(request.term), c.logs[id], from - 1),
        from <= c.logs[id].len() ==> c.lead(request.term)[from - 1] != c.logs[id][from - 1],
        rpc::decode_entries(request.entries)[from - 1 - request.prev_log_index].index == from,
        rpc::news(c.nodes[id], rpc::decode_entries(request.entries)) == rpc::decode_entries(
            request.entries,
        ).skip(from - 1 - request.prev_log_index),
{
    let s = c.nodes[id];
    let log = c.logs[id];
    let lead = c.lead(request.term);
    let entries = rpc::decode_entries(request.entries);
    accepting_agrees(c, id, request);
    assert(c.append_ok(request));
    let k = rpc::news_is_a_suffix(s, entries);
    let from = request.prev_log_index + 1 + k;
    assert(rpc::entry_to_ms(entries[k]) == lead[from - 1]);
    assert(entries[k].index == from) by {
        assert(c.reign_ok(request.term));
        reveal(numbered);
    }
    if k > 0 {
        held_entry_agrees(c, id, request, k - 1);
    }
    assert(c.node_ok(id));
    if from <= log.len() && lead[from - 1] == log[from - 1] {
        assert(s.has_entry(from)) by {
            reveal(covers);
        }
        covered_entry(s, log, from);
    }
    if from <= s.commit_index {
        share_at(lead, log, s.commit_index as int, from - 1);
    }
    from
}

/// The log of a node that accepts entries is the leader's up to their end.
#[verifier::rlimit(60)]
proof fn accepted_log(c: Cluster, id: u64, request: AppendMessage)
    requires
        c.ok(),
        c.possible(Event::Append { node: id, request }),
        rpc::accepts_entries(c.nodes[id], request),
    ensures
        shares(
            c.lead(request.term),
            c.log_after_append(id, request),
            rpc::end_of(request) as int,
        ),
        numbered(c.log_after_append(id, request)),
        c.rooted(c.log_after_append(id, request)),
        forall|i: int|
            0 <= i < c.log_after_append(id, request).len() ==> (#[trigger] c.log_after_append(
                id,
                request,
            )[i]).term <= request.term,
        c.nodes[id].commit_index <= c.log_after_append(id, request).len(),
        c.log_after_append(id, request) != c.logs[id] ==> c.nodes[id].commit_index <= rpc::end_of(
            request,
        ),
{
    let s = c.nodes[id];
    let term = request.term;
    let log = c.logs[id];
    let end = rpc::end_of(request) as int;
    let entries = rpc::decode_entries(request.entries);
    accepting_agrees(c, id, request);
    assert(c.node_ok(id));
    assert(c.append_ok(request));
    assert(c.reign_ok(term));
    covered_end(s, log);
    if rpc::news(s, entries).len() > 0 {
        let from = first_news(c, id, request);
        share_take(c.lead(term), end, end);
        cut_log(c, c.lead(term), end);
        let taken = c.lead(term).take(end);
        assert forall|i: int| 0 <= i < taken.len() implies (#[trigger] taken[i]).term <= term by {
            assert(taken[i] == c.lead(term)[i]);
        }
    } else if entries.len() > 0 {
        let k = rpc::news_is_a_suffix(s, entries);
        held_entry_agrees(c, id, request, entries.len() - 1);
    }
}

/// A state that takes over entries from the first one that is news on covers the leader's log up
/// to their end.
proof fn taking_over_is_covered(
    s: StateView,
    log: Seq<EntryView>,
    lead: Seq<EntryView>,
    prev: u64,
    messages: Seq<EntryMessage>,
    from: int,
)
    requires
        covers(s, log),
        rpc::decode_entries(messages).len() == messages.len(),
        prev + messages.len() <= lead.len(),
        forall|i: int|
            0 <= i < messages.len() ==> rpc::entry_to_ms(
                #[trigger] rpc::decode_entries(messages)[i],
            ) == lead[prev + i],
        prev < from <= prev + messages.len(),
        s.log_offset < from,
        shares(lead, log, from - 1),
        rpc::decode_entries(messages)[from - 1 - prev].index == from,
        rpc::news(s, rpc::decode_entries(messages)) == rpc::decode_entries(messages).skip(
            from - 1 - prev,
        ),
    ensures
        covers(
            (StateView { log: rpc::replicated_log(s, messages), ..s }),
            lead.take(prev + messages.len()),
        ),
{
    let t = StateView { log: rpc::replicated_log(s, messages), ..s };
    let offset = s.log_offset as int;
    let entries = rpc::decode_entries(messages);
    let fresh = entries.skip(from - 1 - prev);
    let end = prev + messages.len();
    share_bounds(lead, log, from - 1);
    reveal(covers);
    assert(fresh[0] == entries[from - 1 - prev]);
    if offset > 0 {
        share_at(lead, log, from - 1, offset - 1);
    }
    let kept = s.log.take(from - 1 - offset);
    assert(s.truncated_log(from) =~= kept);
    assert(t.log =~= kept + fresh);
    assert forall|i: int| 0 <= i < t.log.len() implies rpc::entry_to_ms(#[trigger] t.log[i])
        == lead.take(end)[offset + i] by {
        if i < from - 1 - offset {
            assert(t.log[i] == s.log[i]);
            share_at(lead, log, from - 1, offset + i);
        } else {
            assert(t.log[i] == entries[offset + i - prev]);
        }
    }
}

/// The state of a node that accepts entries covers its new log.
#[verifier::rlimit(60)]
proof fn accepted_log_is_covered(c: Cluster, id: u64, request: AppendMessage)
    requires
        c.ok(),
        c.possible(Event::Append { node: id, request }),
        rpc::accepts_entries(c.nodes[id], request),
    ensures
        covers(
            rpc::after_append_entries(c.nodes[id], request),
            c.log_after_append(id, request),
        ),
{
    let s = c.nodes[id];
    let t = rpc::after_append_entries(s, request);
    let f = rpc::follows(s, request.term, request.leader_id);
    let log = c.logs[id];
    let taken = c.log_after_append(id, request);
    let entries = rpc::decode_entries(request.entries);
    accepting_agrees(c, id, request);
    assert(c.log_ok(id)) by {
        assert(c.node_ok(id));
    }
    assert(c.append_ok(request));
    assert(covers(f, log)) by {
        reveal(covers);
    }
    same_news(s, f, entries);
    if rpc::news(s, entries).len() > 0 {
        let from = first_news(c, id, request);
        taking_over_is_covered(
            f,
            log,
            c.lead(request.term),
            request.prev_log_index,
            request.entries,
            from,
        );
    }
    let log_now = rpc::replicated_log(f, request.entries);
    assert(t.log == log_now);
    assert(covers((StateView { log: log_now, ..f }), taken)) by {
        reveal(covers);
    }
    assert(covers(t, taken)) by {
        reveal(covers);
    }
}

/// What is news depends on the log alone.
proof fn same_news(s: StateView, f: StateView, entries: Seq<EntryView>)
    requires
        f.log == s.log,
        f.log_offset == s.log_offset,
    ensures
        rpc::news(f, entries) == rpc::news(s, entries),
    decreases entries.len(),
{
    if entries.len() > 0 {
        same_news(s, f, entries.skip(1));
    }
}

/// What happens in the records when entries arrive.
proof fn appending_grows(c: Cluster, id: u64, request: AppendMessage)
    requires
        c.ok(),
        c.possible(Event::Append { node: id, request }),
    ensures
        grows(c, c.after_append(id, request)),
        only_at(c, c.after_append(id, request), id),
        c.after_append(id, request).reigns_ok(),
        laws::vote_kept(c.nodes[id], c.after_append(id, request).nodes[id]),
        c.reigns[request.term].leader != id,
        forall|term: u64|
            term != request.term ==> #[trigger] c.after_append(id, request).acked(term, id)
                == c.acked(term, id),
{
    let d = c.after_append(id, request);
    assert(c.append_ok(request));
    laws::append_entries_keep_vote(c.nodes[id], request);
    assert(d.nodes.dom() =~= c.nodes.dom());
    assert(d.logs.dom() =~= c.logs.dom());
    grows_at(c, d, id);
}

#[verifier::rlimit(60)]
proof fn accepting_keeps_node(c: Cluster, id: u64, request: AppendMessage)
    requires
        c.ok(),
        c.possible(Event::Append { node: id, request }),
        rpc::accepts_entries(c.nodes[id], request),
    ensures
        c.after_append(id, request).node_ok(id),
{
    let d = c.after_append(id, request);
    let s = c.nodes[id];
    let t = d.nodes[id];
    let term = request.term;
    let log = c.logs[id];
    let taken = d.logs[id];
    let end = rpc::end_of(request) as int;
    let m = s.commit_index as int;
    appending_grows(c, id, request);
    accepting_agrees(c, id, request);
    accepted_log(c, id, request);
    accepted_log_is_covered(c, id, request);
    assert(c.node_ok(id));
    assert(c.append_ok(request));
    share_bounds(c.lead(term), taken, end);
    rooted_grows(c, d, taken);
    assert(t.commit_index == if request.leader_commit > m {
        request.leader_commit
    } else {
        s.commit_index
    }) by {
        accepted_end(c, id, request);
    }
    covering_is_sound(t, taken);
    assert(d.hold_ok(id)) by {
        if taken != log {
            let from = first_news(c, id, request);
            assert forall|other: u64, k: int|
                #![trigger shares(c.lead(other), log, k)]
                c.reigns.contains_key(other) && other <= term && end < k <= c.hold(
                    other,
                    id,
                ) implies !(shares(c.lead(other), log, k) && shares(
                c.lead(other),
                c.lead(term),
                k,
            )) by {
                if shares(c.lead(other), log, k) && shares(c.lead(other), c.lead(term), k) {
                    share_at(c.lead(other), log, k, from - 1);
                    share_at(c.lead(other), c.lead(term), k, from - 1);
                }
            }
        }
        holds_after_taking(c, d, id, term, end);
    }
    if request.leader_commit > m {
        let lc = request.leader_commit as int;
        settled_grows(c, d, term, lc);
        share_less(c.lead(term), taken, end, lc);
        assert(d.committed_by(id, lc, term));
    } else {
        if taken == log {
            share_take(log, log.len() as int, m);
        } else {
            share_less(c.lead(term), taken, end, m);
        }
        commits_after_taking(c, d, id, term, m);
    }
}

/// The last index of a node that accepts entries is the end of its new log.
proof fn accepted_end(c: Cluster, id: u64, request: AppendMessage)
    requires
        c.ok(),
        c.possible(Event::Append { node: id, request }),
        rpc::accepts_entries(c.nodes[id], request),
    ensures
        rpc::after_append_entries(c.nodes[id], request).last_index() == c.log_after_append(
            id,
            request,
        ).len(),
{
    let t = rpc::after_append_entries(c.nodes[id], request);
    let taken = c.log_after_append(id, request);
    accepted_log(c, id, request);
    accepted_log_is_covered(c, id, request);
    reveal(covers);
    reveal(numbered);
    assert forall|i: int| 0 <= i < t.log.len() implies (#[trigger] t.log[i]).index == t.log_offset
        + i + 1 by {
        assert(rpc::entry_to_ms(t.log[i]) == taken[t.log_offset + i]);
    }
    laws::last_index_counts_all(t);
}

/// A node that has another entry where the leader names one has not committed it.
#[verifier::rlimit(60)]
proof fn rejected_is_not_committed(c: Cluster, id: u64, request: AppendMessage)
    requires
        c.ok(),
        c.possible(Event::Append { node: id, request }),
        c.term(id) <= request.term,
        !rpc::accepts_entries(c.nodes[id], request),
        c.nodes[id].has_entry(request.prev_log_index as int),
    ensures
        c.nodes[id].commit_index < request.prev_log_index <= c.logs[id].len(),
        request.prev_log_index <= c.lead(request.term).len(),
        c.lead(request.term)[request.prev_log_index - 1] != c.logs[id][request.prev_log_index - 1],
{
    let s = c.nodes[id];
    let prev = request.prev_log_index as int;
    let m = s.commit_index as int;
    assert(c.node_ok(id));
    assert(c.append_ok(request));
    covered_entry(s, c.logs[id], prev);
    committed_is_led(c, id, m, request.term);
    if prev <= m {
        share_at(c.lead(request.term), c.logs[id], m, prev - 1);
    }
}

/// The state of a node that cuts its log off.
proof fn cut_state(s: StateView, request: AppendMessage)
    requires
        s.current_term <= request.term,
        !rpc::accepts_entries(s, request),
        s.has_entry(request.prev_log_index as int),
    ensures
        ({
            let t = rpc::after_append_entries(s, request);
            &&& t.log == s.log.take(request.prev_log_index - s.log_offset - 1)
            &&& t.log_offset == s.log_offset
            &&& t.snapshot == s.snapshot
            &&& t.current_term == request.term
            &&& t.commit_index == s.commit_index
            &&& t.last_applied == s.last_applied
        }),
{
}

/// A state whose log is cut off holds the log that is cut off there.
proof fn cut_covers(s: StateView, t: StateView, log: Seq<EntryView>, n: int)
    requires
        covers(s, log),
        s.log_offset <= n < log.len(),
        t.log == s.log.take(n - s.log_offset),
        t.log_offset == s.log_offset,
        t.snapshot == s.snapshot,
    ensures
        covers(t, log.take(n)),
{
    reveal(covers);
    assert forall|i: int| 0 <= i < t.log.len() implies rpc::entry_to_ms(#[trigger] t.log[i])
        == log.take(n)[t.log_offset + i] by {
        assert(t.log[i] == s.log[i]);
    }
}

/// The log of a node that cuts it off.
#[verifier::rlimit(60)]
proof fn cut_log_ok(c: Cluster, id: u64, request: AppendMessage)
    requires
        c.ok(),
        c.possible(Event::Append { node: id, request }),
        c.term(id) <= request.term,
        !rpc::accepts_entries(c.nodes[id], request),
        c.nodes[id].has_entry(request.prev_log_index as int),
    ensures
        c.after_append(id, request).log_ok(id),
{
    let d = c.after_append(id, request);
    let s = c.nodes[id];
    let t = rpc::after_append_entries(s, request);
    let log = c.logs[id];
    let n = request.prev_log_index - 1;
    let cut = log.take(n);
    assert(d.nodes[id] == t && d.logs[id] == cut);
    assert(grows(c, d)) by {
        appending_grows(c, id, request);
    }
    assert(s.commit_index < request.prev_log_index <= log.len()) by {
        rejected_is_not_committed(c, id, request);
    }
    assert(c.log_ok(id)) by {
        assert(c.node_ok(id));
    }
    cut_state(s, request);
    assert(d.rooted(cut) && numbered(cut)) by {
        cut_log(c, log, n);
        rooted_grows(c, d, cut);
    }
    cut_covers(s, t, log, n);
    covering_is_sound(t, cut);
    assert forall|i: int| 0 <= i < cut.len() implies (#[trigger] cut[i]).term
        <= request.term by {
        assert(cut[i] == log[i]);
    }
}

#[verifier::rlimit(60)]
proof fn cutting_keeps_node(c: Cluster, id: u64, request: AppendMessage)
    requires
        c.ok(),
        c.possible(Event::Append { node: id, request }),
        c.term(id) <= request.term,
        !rpc::accepts_entries(c.nodes[id], request),
        c.nodes[id].has_entry(request.prev_log_index as int),
    ensures
        c.after_append(id, request).node_ok(id),
{
    let d = c.after_append(id, request);
    let log = c.logs[id];
    let n = request.prev_log_index - 1;
    let m = c.nodes[id].commit_index as int;
    appending_grows(c, id, request);
    rejected_is_not_committed(c, id, request);
    assert(d.log_ok(id)) by {
        cut_log_ok(c, id, request);
    }
    assert(d.hold_ok(id)) by {
        assert(c.append_ok(request));
        holds_after_cutting(c, d, id, request.term, n);
    }
    assert(d.committed(id, m)) by {
        assert(c.append_ok(request));
        assert(c.committed(id, m)) by {
            assert(c.node_ok(id));
        }
        share_take(log, n, m);
        commits_after_taking(c, d, id, request.term, m);
    }
    assert(d.poll_ok(id)) by {
        assert(c.node_ok(id));
    }
}

#[verifier::rlimit(60)]
proof fn rejecting_keeps_node(c: Cluster, id: u64, request: AppendMessage)
    requires
        c.ok(),
        c.possible(Event::Append { node: id, request }),
        c.term(id) <= request.term,
        !rpc::accepts_entries(c.nodes[id], request),
    ensures
        c.after_append(id, request).node_ok(id),
{
    let d = c.after_append(id, request);
    let s = c.nodes[id];
    if s.has_entry(request.prev_log_index as int) {
        cutting_keeps_node(c, id, request);
    } else {
        appending_grows(c, id, request);
        assert(c.node_ok(id));
        rooted_grows(c, d, c.logs[id]);
        holds_stay(c, d, id);
        committed_grows(c, d, id, s.commit_index as int);
        assert(covers(d.nodes[id], c.logs[id])) by {
            reveal(covers);
        }
    }
}

#[verifier::rlimit(60)]
proof fn ok_after_append(c: Cluster, id: u64, request: AppendMessage)
    requires
        c.ok(),
        c.possible(Event::Append { node: id, request }),
    ensures
        c.after(Event::Append { node: id, request }).ok(),
        grows(c, c.after(Event::Append { node: id, request })),
{
    let d = c.after_append(id, request);
    appending_grows(c, id, request);
    assert(c.append_ok(request));
    assert(d.node_ok(id)) by {
        if rpc::accepts_entries(c.nodes[id], request) {
            accepting_keeps_node(c, id, request);
        } else if c.term(id) <= request.term {
            rejecting_keeps_node(c, id, request);
        } else {
            assert(c.node_ok(id));
            assert(d.logs[id] == c.logs[id]);
            untouched(c, d, id);
        }
    }
    messages_stay(c, d);
    assert forall|reply: AppendReply| #[trigger]
        d.append_replies.contains(reply) implies d.append_reply_ok(reply) by {
        if !c.append_replies.contains(reply) {
            assert(reply.from == id && reply.sent == request);
        }
    }
    assert forall|term: u64| #[trigger] d.acks.contains_key((term, id)) implies d.ack_ok(
        term,
        id,
    ) by {
        if c.acks.contains_key((term, id)) {
            ballots_stay(c, d, term, id);
        }
    }
    ok_at(c, d, id);
}

// ---------------------------------------------------------------------------
// Snapshots arrive
// ---------------------------------------------------------------------------

/// What happens in the records when a snapshot arrives.
proof fn installing_grows(c: Cluster, id: u64, request: SnapshotMessage)
    requires
        c.ok(),
        c.possible(Event::Install { node: id, snapshot: request }),
    ensures
        grows(c, c.after_install(id, request)),
        only_at(c, c.after_install(id, request), id),
        c.after_install(id, request).reigns_ok(),
        laws::vote_kept(c.nodes[id], c.after_install(id, request).nodes[id]),
        c.reigns[request.term].leader != id,
        forall|term: u64|
            term != request.term ==> #[trigger] c.after_install(id, request).acked(term, id)
                == c.acked(term, id),
{
    let d = c.after_install(id, request);
    assert(c.snapshot_ok(request));
    laws::install_snapshot_keeps_vote(c.nodes[id], request);
    assert(d.nodes.dom() =~= c.nodes.dom());
    assert(d.logs.dom() =~= c.logs.dom());
    grows_at(c, d, id);
}

/// A state that takes note of a snapshot covers its own log, or the leader's up to the end of the
/// snapshot.
proof fn taking_snapshot_is_covered(
    s: StateView,
    log: Seq<EntryView>,
    lead: Seq<EntryView>,
    request: SnapshotMessage,
)
    requires
        laws::sound(s),
        covers(s, log),
        s.current_term <= request.term,
        0 < request.last_included_index <= lead.len(),
        request.last_included_index < u64::MAX,
        request.last_included_term == lead[request.last_included_index - 1].term,
    ensures
        covers(
            rpc::after_install_snapshot(s, request),
            if !rpc::snapshot_is_news(s, request) || (s.has_entry(
                request.last_included_index as int,
            ) && s.entry(request.last_included_index as int).term
                == request.last_included_term) {
                log
            } else {
                lead.take(request.last_included_index as int)
            },
        ),
        laws::sound(rpc::after_install_snapshot(s, request)),
{
    let t = rpc::after_install_snapshot(s, request);
    let last = request.last_included_index as int;
    laws::install_snapshot_keeps_sound(s, request);
    reveal(covers);
    if rpc::snapshot_is_news(s, request) && s.has_entry(last) && s.entry(last).term
        == request.last_included_term {
        covered_entry(s, log, last);
        assert forall|i: int| 0 <= i < t.log.len() implies rpc::entry_to_ms(#[trigger] t.log[i])
            == log[t.log_offset + i] by {
            assert(t.log[i] == s.log[i + (last - s.log_offset)]);
        }
    }
}

/// The state of a node that takes note of a snapshot covers its new log.
proof fn installed_log_is_covered(c: Cluster, id: u64, request: SnapshotMessage)
    requires
        c.ok(),
        c.possible(Event::Install { node: id, snapshot: request }),
        c.term(id) <= request.term,
    ensures
        covers(
            rpc::after_install_snapshot(c.nodes[id], request),
            c.log_after_install(id, request),
        ),
        laws::sound(rpc::after_install_snapshot(c.nodes[id], request)),
{
    let lead = c.lead(request.term);
    assert(laws::sound(c.nodes[id]) && covers(c.nodes[id], c.logs[id])) by {
        assert(c.node_ok(id));
    }
    assert(c.snapshot_ok(request));
    assert(request.last_included_index < u64::MAX) by {
        assert(c.reign_ok(request.term));
        reveal(numbered);
    }
    taking_snapshot_is_covered(c.nodes[id], c.logs[id], lead, request);
}

/// The log of a node that takes note of a snapshot is the leader's up to the end of the snapshot.
#[verifier::rlimit(60)]
proof fn installed_log(c: Cluster, id: u64, request: SnapshotMessage)
    requires
        c.ok(),
        c.possible(Event::Install { node: id, snapshot: request }),
        c.term(id) <= request.term,
    ensures
        shares(
            c.lead(request.term),
            c.log_after_install(id, request),
            request.last_included_index as int,
        ),
        numbered(c.log_after_install(id, request)),
        c.rooted(c.log_after_install(id, request)),
        forall|i: int|
            0 <= i < c.log_after_install(id, request).len() ==> (#[trigger] c.log_after_install(
                id,
                request,
            )[i]).term <= request.term,
{
    let s = c.nodes[id];
    let term = request.term;
    let last = request.last_included_index as int;
    let log = c.logs[id];
    let m = s.commit_index as int;
    assert(c.node_ok(id));
    assert(c.snapshot_ok(request));
    assert(c.reign_ok(term));
    if !rpc::snapshot_is_news(s, request) {
        committed_is_led(c, id, m, term);
        share_less(c.lead(term), log, m, last);
    } else if s.has_entry(last) && s.entry(last).term == request.last_included_term {
        covered_entry(s, log, last);
        same_term_agrees(c, id, term, last);
    } else {
        share_take(c.lead(term), last, last);
        cut_log(c, c.lead(term), last);
        let taken = c.lead(term).take(last);
        assert forall|i: int| 0 <= i < taken.len() implies (#[trigger] taken[i]).term <= term by {
            assert(taken[i] == c.lead(term)[i]);
        }
    }
}

#[verifier::rlimit(60)]
proof fn installing_keeps_node(c: Cluster, id: u64, request: SnapshotMessage)
    requires
        c.ok(),
        c.possible(Event::Install { node: id, snapshot: request }),
        c.term(id) <= request.term,
    ensures
        c.after_install(id, request).node_ok(id),
{
    let d = c.after_install(id, request);
    let s = c.nodes[id];
    let t = d.nodes[id];
    let term = request.term;
    let last = request.last_included_index as int;
    let log = c.logs[id];
    let taken = d.logs[id];
    let m = s.commit_index as int;
    installing_grows(c, id, request);
    installed_log(c, id, request);
    installed_log_is_covered(c, id, request);
    assert(c.node_ok(id));
    assert(c.snapshot_ok(request));
    rooted_grows(c, d, taken);
    assert(d.hold_ok(id)) by {
        if taken != log {
            assert forall|other: u64, k: int|
                #![trigger shares(c.lead(other), log, k)]
                c.reigns.contains_key(other) && other <= term && last < k <= c.hold(
                    other,
                    id,
                ) implies !(shares(c.lead(other), log, k) && shares(
                c.lead(other),
                c.lead(term),
                k,
            )) by {
                if shares(c.lead(other), log, k) && shares(c.lead(other), c.lead(term), k) {
                    share_at(c.lead(other), log, k, last - 1);
                    share_at(c.lead(other), c.lead(term), k, last - 1);
                    assert(s.has_entry(last)) by {
                        reveal(covers);
                    }
                    covered_entry(s, log, last);
                }
            }
        }
        holds_after_taking(c, d, id, term, last);
    }
    if rpc::snapshot_is_news(s, request) {
        settled_grows(c, d, term, last);
        assert(d.committed_by(id, last, term));
    } else {
        covered_end(s, log);
        share_take(log, log.len() as int, m);
        commits_after_taking(c, d, id, term, m);
    }
}

#[verifier::rlimit(60)]
proof fn ok_after_install(c: Cluster, id: u64, request: SnapshotMessage)
    requires
        c.ok(),
        c.possible(Event::Install { node: id, snapshot: request }),
    ensures
        c.after(Event::Install { node: id, snapshot: request }).ok(),
        grows(c, c.after(Event::Install { node: id, snapshot: request })),
{
    let d = c.after_install(id, request);
    installing_grows(c, id, request);
    assert(c.snapshot_ok(request));
    assert(d.node_ok(id)) by {
        if c.term(id) <= request.term {
            installing_keeps_node(c, id, request);
        } else {
            assert(c.node_ok(id));
            assert(d.logs[id] == c.logs[id]);
            untouched(c, d, id);
        }
    }
    messages_stay(c, d);
    assert forall|reply: SnapshotReply| #[trigger]
        d.snapshot_replies.contains(reply) implies d.snapshot_reply_ok(reply) by {
        if !c.snapshot_replies.contains(reply) {
            assert(reply.from == id && reply.sent == request);
        }
    }
    assert forall|term: u64| #[trigger] d.acks.contains_key((term, id)) implies d.ack_ok(
        term,
        id,
    ) by {
        if c.acks.contains_key((term, id)) {
            ballots_stay(c, d, term, id);
        }
    }
    ok_at(c, d, id);
}

/// Where the leader of a term tells that an entry of its leadership is committed, its log still
/// agrees with that leadership up to the entry.
pub(crate) proof fn leader_entry_stays(c: Cluster, id: u64, term: u64, index: u64)
    requires
        c.ok(),
        c.members.contains(id),
        c.reigns.contains_key(term),
        c.reigns[term].leader == id,
        1 <= index <= c.lead(term).len(),
        node::proposal_state_of(c.nodes[id], index, term) is Committed,
    ensures
        shares(c.lead(term), c.logs[id], index as int),
{
    let s = c.nodes[id];
    let log = c.logs[id];
    assert(c.node_ok(id));
    if s.has_entry(index as int) {
        covered_entry(s, log, index as int);
        rooted_at(c, log, index as int);
    } else if index == s.log_offset {
        reveal(covers);
        rooted_at(c, log, index as int);
    } else {
        assert(c.keeps(term, id, index as int));
    }
}

// ---------------------------------------------------------------------------
// Runs
// ---------------------------------------------------------------------------

/// Whatever happens in a cluster that is in order, it stays in order.
pub(crate) proof fn ok_after(c: Cluster, event: Event)
    requires
        c.ok(),
        c.possible(event),
    ensures
        c.after(event).ok(),
        grows(c, c.after(event)),
{
    match event {
        Event::Stand { node } => ok_after_stand(c, node),
        Event::Vote { node, term, candidate } => ok_after_vote(c, node, term, candidate),
        Event::Count { node, ballot } => ok_after_count(c, node, ballot),
        Event::Close { node, peers } => ok_after_close(c, node, peers),
        Event::Propose { node, command } => ok_after_propose(c, node, command),
        Event::Send { node, peer } => ok_after_send(c, node, peer),
        Event::Append { node, request } => ok_after_append(c, node, request),
        Event::Acknowledge { node, reply } => ok_after_acknowledge(c, node, reply),
        Event::Install { node, snapshot } => ok_after_install(c, node, snapshot),
        Event::Installed { node, receipt } => ok_after_installed(c, node, receipt),
        Event::Apply { node } => ok_after_apply(c, node),
        Event::Compact { node, jobs, workers } => ok_after_compact(c, node, jobs, workers),
        Event::StepDown { node } => ok_after_step_down(c, node),
        Event::Restart { node, stored } => ok_after_restart(c, node, stored),
    }
}

/// At every moment of a run the cluster is in order.
pub(crate) proof fn ok_throughout(members: Set<u64>, events: Seq<Event>)
    requires
        cluster::can_be_members(members),
        cluster::can_happen(members, events),
    ensures
        cluster::cluster_after(members, events).ok(),
        cluster::cluster_after(members, events).members == members,
    decreases events.len(),
{
    if events.len() == 0 {
        ok_at_start(members);
    } else {
        let front = events.drop_last();
        ok_throughout(members, front);
        ok_after(cluster::cluster_after(members, front), events.last());
    }
}

/// Part of a run is a run.
pub(crate) proof fn prefix_can_happen(members: Set<u64>, events: Seq<Event>, n: int)
    requires
        cluster::can_happen(members, events),
        0 <= n <= events.len(),
    ensures
        cluster::can_happen(members, events.take(n)),
    decreases events.len(),
{
    if n == events.len() {
        assert(events.take(n) =~= events);
    } else {
        prefix_can_happen(members, events.drop_last(), n);
        assert(events.drop_last().take(n) =~= events.take(n));
    }
}

/// Leaderships last, and so does what is committed.
pub(crate) proof fn records_last(
    members: Set<u64>,
    events: Seq<Event>,
    n: int,
    term: u64,
    log: Seq<EntryView>,
    m: int,
)
    requires
        cluster::can_be_members(members),
        cluster::can_happen(members, events),
        0 <= n <= events.len(),
        cluster::cluster_after(members, events.take(n)).reigns.contains_key(term),
        shares(cluster::cluster_after(members, events.take(n)).lead(term), log, m),
    ensures
        cluster::cluster_after(members, events).reigns.contains_key(term),
        cluster::cluster_after(members, events).reigns[term].leader == cluster::cluster_after(
            members,
            events.take(n),
        ).reigns[term].leader,
        shares(cluster::cluster_after(members, events).lead(term), log, m),
        cluster::cluster_after(members, events.take(n)).settled(term, m)
            ==> cluster::cluster_after(members, events).settled(term, m),
    decreases events.len(),
{
    if n == events.len() {
        assert(events.take(n) =~= events);
    } else {
        let front = events.drop_last();
        assert(front.take(n) =~= events.take(n));
        records_last(members, front, n, term, log, m);
        ok_throughout(members, front);
        let c = cluster::cluster_after(members, front);
        let d = cluster::cluster_after(members, events);
        ok_after(c, events.last());
        assert(reign_grows(c, d, term));
        lead_grows(c, d, term, log, m);
        if c.settled(term, m) {
            settled_grows(c, d, term, m);
        }
    }
}

/// The log of a leader is in order: its terms do not fall and are none later than its own, and no
/// peer is known to hold more than there is.
pub(crate) proof fn leaders_are_in_order(c: Cluster, id: u64)
    requires
        c.ok(),
        c.members.contains(id),
        c.nodes[id].role is Leader,
    ensures
        progress_laws::leader_in_order(c.nodes[id]),
        c.nodes[id].match_index.dom() == c.members.remove(id),
        c.members.finite(),
{
    let s = c.nodes[id];
    let log = c.logs[id];
    assert(c.node_ok(id));
    assert(c.reign_ok(s.current_term));
    covered_end(s, log);
    laws::last_index_counts_all(s);
    assert forall|p: u64| #[trigger] s.match_index.contains_key(p) implies s.match_index[p]
        <= s.log_offset + s.log.len() by {
        let k = s.match_index[p] as int;
        assert(c.matched(s.current_term, p, k));
        if k <= c.hold(s.current_term, p) {
            hold_bounds(c, s.current_term, p);
        } else {
            let (from, m) = choose|from: u64, m: int| #[trigger]
                c.settled_by(s.current_term, k, from, m);
            share_bounds(c.lead(from), c.lead(s.current_term), k);
        }
    }
    assert forall|i: int| 0 <= i < s.log.len() implies (#[trigger] s.log[i]).term == log[s.log_offset
        + i].term && s.log[i].term <= s.current_term by {
        reveal(covers);
        assert(rpc::entry_to_ms(s.log[i]) == log[s.log_offset + i]);
    }
    assert forall|i: int, j: int| 0 <= i <= j < s.log.len() implies (#[trigger] s.log[i]).term <= (
    #[trigger] s.log[j]).term by {
        reveal(rising);
        assert(log[s.log_offset + i].term <= log[s.log_offset + j].term);
    }
}

/// What a peer took over in a leader's term lies within the leader's log.
pub(crate) proof fn answers_are_within_the_log(c: Cluster, id: u64, reply: AppendReply)
    requires
        c.ok(),
        c.possible(Event::Acknowledge { node: id, reply }),
        c.nodes[id].role is Leader,
        reply.answer.success,
        reply.sent.term == c.nodes[id].current_term,
    ensures
        c.nodes[id].match_index.contains_key(reply.from),
        rpc::end_of(reply.sent) <= c.nodes[id].log_offset + c.nodes[id].log.len(),
{
    let s = c.nodes[id];
    assert(c.node_ok(id));
    assert(c.append_reply_ok(reply));
    assert(c.members.remove(id).contains(reply.from));
    covered_end(s, c.logs[id]);
    laws::last_index_counts_all(s);
    if c.acks.contains_key((s.current_term, reply.from)) {
        assert(c.ack_ok(s.current_term, reply.from));
    }
}

} // verus!
