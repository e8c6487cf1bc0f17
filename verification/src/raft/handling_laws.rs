//! What holds of a node that handles messages and answers: each law is about the call that does it.

use std::collections::HashMap;

use crate::clock::Moment;
use crate::proto::{
    AppendEntriesRequest, AppendEntriesResponse, InstallSnapshotRequest, InstallSnapshotResponse,
    TimeoutNowRequest, TimeoutNowResponse, VoteRequest, VoteResponse,
};
use crate::raft::laws;
use crate::raft::node::{
    Election, ProposalState, RaftNode, Replication, TimeoutNowOutcome, Transfer, TransferStep,
    Wait,
};
use crate::raft::progress_laws;
use crate::raft::rpc;
use crate::raft::state;
use crate::raft::state::{Command, LogEntry};
use vstd::prelude::*;

verus! {

// ---------------------------------------------------------------------------
// Commits
// ---------------------------------------------------------------------------

/// A leader that handles a success in its own term commits every entry of its term that more than
/// half of the nodes hold, itself counted with its peers. It tells whether its commit index moved.
pub proof fn majorities_commit_when_answers_are_handled(
    raft: &mut RaftNode,
    peer: u64,
    sent: &AppendEntriesRequest,
    resp: AppendEntriesResponse,
    now: Moment,
    moved: bool,
    index: u64,
)
    requires
        call_ensures(RaftNode::handle_append_response, (raft, peer, sent, resp, now), moved),
        progress_laws::leader_in_order(old(raft).state@),
        old(raft).state@.role is Leader,
        old(raft).state@.match_index.contains_key(peer),
        resp.success,
        sent.term == old(raft).state@.current_term,
        resp.term == old(raft).state@.current_term,
        sent.prev_log_index + sent.entries@.len() <= old(raft).state@.log_offset + old(
            raft,
        ).state@.log.len(),
        old(raft).state@.has_entry(index as int),
        old(raft).state@.entry(index as int).term == old(raft).state@.current_term,
    ensures
        ({
            let s = old(raft).state@;
            let t = final(raft).state@;
            let nodes = s.match_index.dom().len() + 1;
            let holders = t.match_index.dom().filter(
                |p: u64| t.match_index[p] >= index,
            ).len() + 1;
            &&& t.match_index[peer] == sent.prev_log_index + sent.entries@.len()
            &&& 2 * holders > nodes ==> t.commit_index >= index
            &&& moved <==> t.commit_index > s.commit_index
            &&& final(raft).peer_last_seen@.contains_key(peer)
            &&& final(raft).peer_last_seen@[peer] == now
        }),
{
    progress_laws::answers_commit_what_more_than_half_hold(
        raft.state@,
        peer,
        sent@,
        resp,
        index,
    );
}

/// A command that a leader takes stands at the end of its log, in its term, under the index that
/// is told. No other node takes one.
pub proof fn leaders_append_commands(
    raft: &mut RaftNode,
    command: Command,
    answer: Result<u64, String>,
)
    requires
        call_ensures(RaftNode::handle_append_command, (raft, command), answer),
        old(raft).state@.last_index() < u64::MAX,
    ensures
        answer is Ok <==> old(raft).state@.role is Leader,
        answer is Ok ==> {
            let s = old(raft).state@;
            let t = final(raft).state@;
            let last = t.log[t.log.len() - 1];
            &&& t.log.len() == s.log.len() + 1
            &&& forall|i: int| 0 <= i < s.log.len() ==> #[trigger] t.log[i] == s.log[i]
            &&& last.command == command@
            &&& last.term == s.current_term
            &&& last.index == answer->Ok_0
            &&& s.log.len() > 0 ==> answer->Ok_0 == s.log[s.log.len() - 1].index + 1
            &&& s.log.len() == 0 ==> answer->Ok_0 == s.log_offset + 1
        },
        answer is Err ==> final(raft).state@ == old(raft).state@,
{
}

/// The entries that are handed out to be applied are those committed and not yet applied, in
/// order, and then they count as applied.
pub proof fn committed_entries_are_handed_out(raft: &mut RaftNode, entries: Vec<LogEntry>)
    requires
        call_ensures(RaftNode::get_committed_entries, (raft,), entries),
        laws::sound(old(raft).state@),
    ensures
        ({
            let s = old(raft).state@;
            &&& entries@.len() == s.commit_index - s.last_applied
            &&& forall|i: int|
                0 <= i < entries@.len() ==> (#[trigger] entries@[i])@ == s.log[s.last_applied + i
                    - s.log_offset]
            &&& final(raft).state@.last_applied == s.commit_index
            &&& final(raft).state@.log == s.log
        }),
{
    progress_laws::commits_are_applied(raft.state@);
    let s = raft.state@;
    let views = state::entries_view(entries@);
    assert(views.len() == entries@.len());
    assert forall|i: int| 0 <= i < entries@.len() implies (#[trigger] entries@[i])@
        == s.log[s.last_applied + i - s.log_offset] by {
        assert(views[i] == entries@[i]@);
    }
}

// ---------------------------------------------------------------------------
// Elections
// ---------------------------------------------------------------------------

/// A node votes for a candidate of no earlier term, in whose term it voted for nobody else and
/// whose log ends no earlier than its own, and for no other; it then waits out its timeout anew.
pub proof fn votes_are_answered_when_due(
    raft: &mut RaftNode,
    req: VoteRequest,
    now: Moment,
    answer: Result<VoteResponse, String>,
)
    requires
        call_ensures(RaftNode::handle_vote_request, (raft, req, now), answer),
    ensures
        ({
            let s = old(raft).state@;
            let t = final(raft).state@;
            let due = {
                &&& req.term >= s.current_term
                &&& req.term > s.current_term || s.voted_for is None || s.voted_for == Some(
                    req.candidate_id,
                )
                &&& progress_laws::ends_no_earlier(req.last_log_index, req.last_log_term, s)
            };
            &&& answer is Ok
            &&& answer->Ok_0.vote_granted <==> due
            &&& due ==> t.voted_for == Some(req.candidate_id) && final(raft).last_heartbeat == now
            &&& !due ==> final(raft).last_heartbeat == old(raft).last_heartbeat
            &&& answer->Ok_0.term == t.current_term
            &&& req.term > s.current_term ==> t.current_term == req.term && t.role is Follower
            &&& req.term <= s.current_term ==> t.current_term == s.current_term && t.role == s.role
            &&& t.log == s.log
        }),
{
    progress_laws::votes_are_given_when_due(raft.state@, req);
}

/// A node that stands for election does so in the next term, with its own vote counted.
pub proof fn elections_start_with_the_own_vote(raft: &mut RaftNode, r: (Election, VoteRequest))
    requires
        call_ensures(RaftNode::start_election, (raft,), r),
        old(raft).state@.current_term < u64::MAX,
    ensures
        final(raft).state@.role is Candidate,
        final(raft).state@.current_term == old(raft).state@.current_term + 1,
        final(raft).state@.voted_for == Some(old(raft).id),
        final(raft).state@.log == old(raft).state@.log,
        r.0.open,
        r.0.votes == 1,
        r.0.term == old(raft).state@.current_term + 1,
        r.1.term == old(raft).state@.current_term + 1,
        r.1.candidate_id == old(raft).id,
        progress_laws::ends_no_earlier(r.1.last_log_index, r.1.last_log_term, old(raft).state@),
{
    progress_laws::candidates_stand_in_the_next_term(raft.state@, raft.id);
}

/// A candidate becomes leader exactly with the votes of more than half of the nodes, its peers and
/// itself, in an election that goes on and is of its term.
pub proof fn elections_are_won_by_more_than_half(
    raft: &mut RaftNode,
    election: Election,
    won: bool,
)
    requires
        call_ensures(RaftNode::finish_election, (raft, election), won),
        old(raft).state@.last_index() < u64::MAX,
    ensures
        won <==> election.open && old(raft).state@.role is Candidate && old(
            raft,
        ).state@.current_term == election.term && 2 * election.votes > old(raft).config.peers@.len()
            + 1,
        won ==> final(raft).state@.role is Leader,
        !won ==> final(raft).state@.role == old(raft).state@.role,
        final(raft).state@.current_term == old(raft).state@.current_term,
        final(raft).state@.log == old(raft).state@.log,
{
    let ids = raft.config.peer_ids();
    assert(ids.len() == raft.config.peers@.len());
}

/// Each granted vote of no later term counts once, and an answer of a later term ends the election
/// and the candidacy.
pub proof fn votes_are_counted(
    raft: &mut RaftNode,
    election: Election,
    peer: u64,
    resp: VoteResponse,
    now: Moment,
    after: Election,
)
    requires
        call_ensures(RaftNode::handle_vote_response, (raft, election, peer, resp, now), after),
        election.open,
        election.votes < u64::MAX,
    ensures
        after.term == election.term,
        resp.term <= election.term ==> after.open && after.votes == election.votes + (
        if resp.vote_granted {
            1int
        } else {
            0int
        }),
        resp.term > election.term ==> !after.open,
        resp.term > old(raft).state@.current_term ==> final(raft).state@.role is Follower,
        resp.term > old(raft).state@.current_term ==> final(raft).state@.current_term == resp.term,
        resp.term <= old(raft).state@.current_term ==> final(raft).state@ == old(raft).state@,
{
}

/// An election is due once nothing was heard for the timeout.
pub proof fn elections_wait_for_the_timeout(
    raft: RaftNode,
    timeout_ms: u64,
    now: Moment,
    due: bool,
)
    requires
        call_ensures(RaftNode::election_due, (&raft, timeout_ms, now), due),
        raft.last_heartbeat <= now,
    ensures
        due <==> now - raft.last_heartbeat >= timeout_ms * 1_000_000,
{
}

/// A leader waits for its next heartbeat, any other node for the election timeout.
pub proof fn leaders_wait_for_heartbeats(raft: RaftNode, timeout_ms: u64, wait: Wait)
    requires
        call_ensures(RaftNode::next_wait, (&raft, timeout_ms), wait),
    ensures
        raft.state@.role is Leader ==> wait == Wait::Heartbeat(raft.config.heartbeat_interval_ms),
        !(raft.state@.role is Leader) ==> wait == Wait::Election(timeout_ms),
{
}

// ---------------------------------------------------------------------------
// The log
// ---------------------------------------------------------------------------

/// A node answers entries with success exactly when it took them over from a leader of no earlier
/// term; it then holds each of them that is not compacted, and waits out its timeout anew.
pub proof fn entries_are_answered_when_taken(
    raft: &mut RaftNode,
    req: AppendEntriesRequest,
    now: Moment,
    answer: Result<AppendEntriesResponse, String>,
)
    requires
        call_ensures(RaftNode::handle_append_entries, (raft, req, now), answer),
        laws::sound(old(raft).state@),
        ({
            let entries = rpc::decode_entries(req@.entries);
            &&& forall|i: int|
                0 <= i < entries.len() ==> (#[trigger] entries[i]).index == req.prev_log_index + 1
                    + i
            &&& req.prev_log_index + entries.len() < u64::MAX
        }),
    ensures
        ({
            let s = old(raft).state@;
            let t = final(raft).state@;
            let entries = rpc::decode_entries(req@.entries);
            let agrees = {
                ||| req.prev_log_index == 0
                ||| req.prev_log_index < s.log_offset
                ||| req.prev_log_index == s.log_offset && req.prev_log_term
                    == s.snapshot->0.last_included_term
                ||| s.has_entry(req.prev_log_index as int) && s.entry(
                    req.prev_log_index as int,
                ).term == req.prev_log_term
            };
            &&& answer is Ok
            &&& answer->Ok_0.success <==> req.term >= s.current_term && agrees
            &&& answer->Ok_0.term == t.current_term
            &&& answer->Ok_0.success ==> final(raft).last_heartbeat == now && t.leader_id == Some(
                req.leader_id,
            ) && t.role is Follower
            &&& answer->Ok_0.success ==> forall|i: int|
                0 <= i < entries.len() && req.prev_log_index + 1 + i > s.log_offset
                    ==> t.has_entry(req.prev_log_index + 1 + i) && t.entry(
                    req.prev_log_index + 1 + i,
                ).term == (#[trigger] entries[i]).term
            &&& req.term < s.current_term ==> t == s
        }),
{
    progress_laws::entries_are_taken_when_logs_agree(raft.state@, req@);
    if rpc::accepts_entries(raft.state@, req@) {
        progress_laws::taken_entries_are_held(raft.state@, req@);
    }
}

// ---------------------------------------------------------------------------
// Proposals and hand-overs
// ---------------------------------------------------------------------------

/// What is told of a command that stands in the log: committed, replaced, or undecided.
pub proof fn proposals_are_told_by_the_log(
    raft: RaftNode,
    index: u64,
    term: u64,
    told: ProposalState,
)
    requires
        call_ensures(RaftNode::proposal_state, (&raft, index, term), told),
        raft.state@.has_entry(index as int),
    ensures
        ({
            let ours = raft.state@.entry(index as int).term == term;
            &&& told is Lost <==> !ours
            &&& told is Committed <==> ours && index <= raft.state@.commit_index
            &&& told is Pending <==> ours && index > raft.state@.commit_index
        }),
{
}

/// A hand-over waits until the target is known to hold all that the leader held, and gives up only
/// when the time is up before that.
pub proof fn hand_overs_wait_for_the_target(
    raft: RaftNode,
    transfer: Transfer,
    time_is_up: bool,
    step: TransferStep,
)
    requires
        call_ensures(RaftNode::transfer_step, (&raft, &transfer, time_is_up), step),
    ensures
        ({
            let s = raft.state@;
            let caught_up = if s.match_index.contains_key(transfer.target) {
                s.match_index[transfer.target] >= transfer.leader_last_index
            } else {
                transfer.leader_last_index == 0
            };
            &&& step is SendTimeoutNow <==> caught_up
            &&& step is GiveUp <==> !caught_up && time_is_up
            &&& step is SendHeartbeatsAndWait <==> !caught_up && !time_is_up
        }),
{
}

/// A hand-over that the target agreed to makes the leader of that term a follower; any other
/// leaves it as it is.
pub proof fn hand_overs_end_leadership(
    raft: &mut RaftNode,
    transfer: &Transfer,
    outcome: TimeoutNowOutcome,
    answer: Result<u64, String>,
)
    requires
        call_ensures(RaftNode::finish_transfer, (raft, transfer, outcome), answer),
    ensures
        answer is Ok <==> (outcome matches TimeoutNowOutcome::Answered(resp) && resp.success),
        answer is Ok ==> answer->Ok_0 == transfer.target,
        answer is Ok && old(raft).state@.current_term == transfer.term ==> final(raft).state@.role
            is Follower,
        answer is Ok && old(raft).state@.current_term != transfer.term ==> final(raft).state@
            == old(raft).state@,
        answer is Err ==> final(raft).state@ == old(raft).state@,
        final(raft).state@.current_term == old(raft).state@.current_term,
        final(raft).state@.log == old(raft).state@.log,
{
}

/// A node that is told to stand does so at once in the next term, unless the one who tells it is
/// of an earlier term.
pub proof fn told_nodes_stand_at_once(
    raft: &mut RaftNode,
    req: TimeoutNowRequest,
    answer: Result<(Election, VoteRequest), TimeoutNowResponse>,
)
    requires
        call_ensures(RaftNode::handle_timeout_now, (raft, req), answer),
        old(raft).state@.current_term < u64::MAX,
    ensures
        answer is Ok <==> req.term >= old(raft).state@.current_term,
        answer is Ok ==> final(raft).state@.role is Candidate && final(raft).state@.current_term
            == old(raft).state@.current_term + 1 && answer->Ok_0.0.votes == 1
            && answer->Ok_0.1.term == final(raft).state@.current_term,
        answer is Err ==> !answer->Err_0.success && answer->Err_0.term == old(
            raft,
        ).state@.current_term && final(raft).state@ == old(raft).state@,
{
}

// ---------------------------------------------------------------------------
// Snapshots and peers
// ---------------------------------------------------------------------------

/// A snapshot from a leader of no earlier term that reaches past what is committed takes the place
/// of the log up to its end, and waits to be restored.
pub proof fn snapshots_are_taken_over(
    raft: &mut RaftNode,
    req: InstallSnapshotRequest,
    now: Moment,
    answer: Result<InstallSnapshotResponse, String>,
)
    requires
        call_ensures(RaftNode::handle_install_snapshot, (raft, req, now), answer),
        laws::sound(old(raft).state@),
    ensures
        ({
            let s = old(raft).state@;
            let t = final(raft).state@;
            let last = req.last_included_index;
            &&& answer is Ok
            &&& answer->Ok_0.term == t.current_term
            &&& req.term >= s.current_term && last > s.commit_index ==> {
                &&& t.log_offset == last
                &&& t.commit_index == last
                &&& t.last_applied == last
                &&& t.snapshot is Some
                &&& t.snapshot->0.last_included_index == last
                &&& t.snapshot->0.last_included_term == req.last_included_term
                &&& final(raft).pending_snapshot is Some
                &&& final(raft).pending_snapshot->0@ == t.snapshot->0
            }
            &&& req.term < s.current_term || last <= s.commit_index ==> t.log == s.log
                && t.log_offset == s.log_offset && t.commit_index == s.commit_index
            &&& final(raft).last_heartbeat == now
        }),
{
    progress_laws::snapshots_bring_nodes_forward(raft.state@, req@);
}

/// A leader sends a round to each peer that it is connected to, once; other nodes send nothing.
pub proof fn heartbeats_reach_every_peer(
    raft: RaftNode,
    sent: Vec<(u64, Replication)>,
    peer: u64,
)
    requires
        call_ensures(RaftNode::send_heartbeats, (&raft,), sent),
    ensures
        !(raft.state@.role is Leader) ==> sent@.len() == 0,
        raft.state@.role is Leader ==> (raft.peers@.contains(peer) <==> exists|i: int|
            0 <= i < sent@.len() && (#[trigger] sent@[i]).0 == peer),
        forall|i: int, j: int|
            0 <= i < sent@.len() && 0 <= j < sent@.len() && i != j ==> (#[trigger] sent@[i]).0 != (
            #[trigger] sent@[j]).0,
{
    progress_laws::rounds_reach_every_peer(sent@, raft.state@, raft.id, raft.peers@, peer);
}

/// Every peer of the settings has a state, and is alive exactly when it was heard of within three
/// seconds.
pub proof fn peers_are_told_alive_when_heard_of(
    raft: RaftNode,
    now: Moment,
    status: HashMap<u64, bool>,
    i: int,
)
    requires
        call_ensures(RaftNode::get_peers_status, (&raft, now), status),
        0 <= i < raft.config.peers@.len(),
    ensures
        ({
            let peer = raft.config.peers@[i].node_id;
            let seen = raft.peer_last_seen@;
            &&& status@.contains_key(peer)
            &&& !seen.contains_key(peer) ==> !status@[peer]
            &&& seen.contains_key(peer) && seen[peer] <= now ==> (status@[peer] <==> now
                - seen[peer] < 3_000_000_000)
        }),
{
    let ids = raft.config.peer_ids();
    assert(ids[i] == raft.config.peers@[i].node_id);
    assert(ids.contains(raft.config.peers@[i].node_id));
    assert(ids.to_set().contains(raft.config.peers@[i].node_id));
}

} // verus!
