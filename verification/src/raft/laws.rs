//! What holds of the Raft log, of terms, votes and commits, whatever messages arrive.

use crate::proto::{
    AppendEntriesResponse, AppendMessage, InstallSnapshotResponse, SnapshotMessage, VoteRequest,
    VoteResponse,
};
use crate::raft::node;
use crate::raft::rpc;
use crate::raft::state;
use crate::raft::state::{CommandView, EntryView, SnapshotJobView, StateView};
use crate::raft::storage::PersistedState;
use vstd::prelude::*;

verus! {

// ---------------------------------------------------------------------------
// Terms and votes
// ---------------------------------------------------------------------------

/// From `s` to `t` the term does not go back, and a vote given in a term stays as it was given.
pub open spec fn vote_kept(s: StateView, t: StateView) -> bool {
    ||| t.current_term > s.current_term
    ||| t.current_term == s.current_term && (s.voted_for is Some ==> t.voted_for == s.voted_for)
}

/// A request for a vote keeps term and vote.
pub proof fn vote_request_keeps_vote(s: StateView, req: VoteRequest)
    ensures
        vote_kept(s, rpc::after_vote_request(s, req)),
{
}

/// Entries from a leader keep term and vote.
pub proof fn append_entries_keep_vote(s: StateView, req: AppendMessage)
    ensures
        vote_kept(s, rpc::after_append_entries(s, req)),
{
}

/// A snapshot from a leader keeps term and vote.
pub proof fn install_snapshot_keeps_vote(s: StateView, req: SnapshotMessage)
    ensures
        vote_kept(s, rpc::after_install_snapshot(s, req)),
{
}

/// Answers of peers keep term and vote.
pub proof fn answers_keep_vote(
    s: StateView,
    peer: u64,
    append: AppendMessage,
    append_answer: AppendEntriesResponse,
    snapshot: SnapshotMessage,
    snapshot_answer: InstallSnapshotResponse,
    vote: VoteResponse,
)
    ensures
        vote_kept(s, node::after_append_response(s, peer, append, append_answer)),
        vote_kept(s, node::after_snapshot_response(s, peer, snapshot, snapshot_answer)),
        vote_kept(s, node::after_vote_response(s, vote)),
{
}

/// Elections and the end of a leadership keep term and vote.
pub proof fn role_changes_keep_vote(
    s: StateView,
    id: u64,
    election: node::Election,
    peer_ids: Seq<u64>,
)
    ensures
        s.current_term < u64::MAX ==> vote_kept(s, s.as_candidate(id)),
        vote_kept(s, node::after_election(s, election, id, peer_ids)),
        vote_kept(s, s.stepped_down()),
{
}

/// A node votes for at most one candidate in a term: once a vote is granted, another candidate
/// gets none in the same term.
pub proof fn one_vote_per_term(s: StateView, first: VoteRequest, second: VoteRequest)
    requires
        rpc::grants_vote(s, first),
        second.term == first.term,
        second.candidate_id != first.candidate_id,
    ensures
        !rpc::grants_vote(rpc::after_vote_request(s, first), second),
{
}

/// The vote holds through anything that keeps it: as long as the term stays, no other candidate
/// gets a vote.
pub proof fn vote_holds_within_term(s: StateView, t: StateView, req: VoteRequest)
    requires
        s.voted_for is Some,
        vote_kept(s, t),
        req.term == s.current_term,
        s.voted_for != Some(req.candidate_id),
    ensures
        !rpc::grants_vote(t, req),
{
}

/// A candidate never votes for another in its term.
pub proof fn candidate_votes_for_itself(s: StateView, id: u64, req: VoteRequest)
    requires
        s.current_term < u64::MAX,
        req.candidate_id != id,
        req.term == s.current_term + 1,
    ensures
        !rpc::grants_vote(s.as_candidate(id), req),
{
}

/// Two candidates cannot both win an election in a term: the votes of two majorities of `n`
/// nodes, each giving one vote, do not fit into `n`.
pub proof fn two_majorities_overlap(n: nat, votes: nat, others: nat)
    requires
        votes >= n / 2 + 1,
        others >= n / 2 + 1,
    ensures
        votes + others > n,
{
}

/// A vote goes only to a candidate whose log ends no earlier than the voter's.
pub proof fn votes_need_up_to_date_logs(s: StateView, req: VoteRequest)
    requires
        rpc::grants_vote(s, req),
    ensures
        req.last_log_term > s.last_term() || (req.last_log_term == s.last_term()
            && req.last_log_index >= s.last_index()),
{
}

// ---------------------------------------------------------------------------
// Leaders only append
// ---------------------------------------------------------------------------

/// A leader appends without touching what its log holds, whether or not it commits at once.
pub proof fn leader_appends_only(s: StateView, command: CommandView)
    ensures
        s.log.is_prefix_of(s.appended(command).log),
        s.appended(command).log.len() == s.log.len() + 1,
        node::commit_advanced(s.appended(command)).log == s.appended(command).log,
{
    assert(s.log =~= s.appended(command).log.subrange(0, s.log.len() as int));
}

/// A node that is leader before and after a message has the same log: no message makes a leader
/// overwrite or delete an entry.
pub proof fn messages_leave_leader_log_alone(
    s: StateView,
    vote: VoteRequest,
    append: AppendMessage,
    install: SnapshotMessage,
    peer: u64,
    sent: AppendMessage,
    append_response: AppendEntriesResponse,
    sent_snapshot: SnapshotMessage,
    install_response: InstallSnapshotResponse,
    vote_response: VoteResponse,
)
    requires
        s.role is Leader,
    ensures
        rpc::after_vote_request(s, vote).log == s.log,
        rpc::after_append_entries(s, append).role is Leader ==> rpc::after_append_entries(
            s,
            append,
        ).log == s.log,
        rpc::after_install_snapshot(s, install).role is Leader ==> rpc::after_install_snapshot(
            s,
            install,
        ).log == s.log,
        node::after_append_response(s, peer, sent, append_response).log == s.log,
        node::after_snapshot_response(s, peer, sent_snapshot, install_response).log == s.log,
        node::after_vote_response(s, vote_response).log == s.log,
{
}

// ---------------------------------------------------------------------------
// Shape of the log
// ---------------------------------------------------------------------------

/// The entries are numbered one after the other, from the compacted prefix on.
pub open spec fn contiguous(s: StateView) -> bool {
    forall|i: int| 0 <= i < s.log.len() ==> (#[trigger] s.log[i]).index == s.log_offset + i + 1
}

/// Invariant of a node's state: entries are numbered without gaps, the snapshot ends where the
/// log starts, what is applied is committed, and what is committed is there.
pub open spec fn sound(s: StateView) -> bool {
    &&& contiguous(s)
    &&& s.log_offset + s.log.len() < u64::MAX
    &&& s.snapshot is Some <==> s.log_offset > 0
    &&& s.snapshot is Some ==> s.snapshot->0.last_included_index == s.log_offset
    &&& s.log_offset <= s.last_applied
    &&& s.last_applied <= s.commit_index
    &&& s.commit_index <= s.log_offset + s.log.len()
}

/// In a sound state the last index counts all entries, compacted or not.
pub proof fn last_index_counts_all(s: StateView)
    requires
        contiguous(s),
        s.log_offset + s.log.len() < u64::MAX,
    ensures
        s.last_index() == s.log_offset + s.log.len(),
{
}

/// A node starts in a sound state.
pub proof fn sound_at_start()
    ensures
        sound(state::initial_state()),
{
}

/// Appending keeps the state sound.
pub proof fn append_keeps_sound(s: StateView, command: CommandView)
    requires
        sound(s),
        s.last_index() + 1 < u64::MAX,
    ensures
        sound(s.appended(command)),
        sound(node::commit_advanced(s.appended(command))),
        s.appended(command).last_index() == s.last_index() + 1,
{
    last_index_counts_all(s);
}

/// Requests for votes, elections and changes of role keep the state sound.
pub proof fn roles_keep_sound(
    s: StateView,
    vote: VoteRequest,
    response: VoteResponse,
    id: u64,
    election: node::Election,
    peer_ids: Seq<u64>,
)
    requires
        sound(s),
    ensures
        sound(rpc::after_vote_request(s, vote)),
        sound(node::after_vote_response(s, response)),
        sound(s.as_candidate(id)),
        sound(s.stepped_down()),
        sound(node::after_election(s, election, id, peer_ids)),
{
}

/// The entries of a request are numbered one after the other behind the entry before them, and
/// all of them are well-formed.
pub open spec fn orderly(req: AppendMessage) -> bool {
    let entries = rpc::decode_entries(req.entries);
    &&& entries.len() == req.entries.len()
    &&& forall|i: int|
        0 <= i < entries.len() ==> (#[trigger] entries[i]).index == req.prev_log_index + 1 + i
    &&& req.prev_log_index + entries.len() < u64::MAX - 1
}

/// The log agrees with a request as far as it is committed: at the entry before, and at the
/// entries themselves.
pub open spec fn agrees_where_committed(s: StateView, req: AppendMessage) -> bool {
    &&& req.prev_log_index <= s.commit_index ==> rpc::agrees_at(
        s,
        req.prev_log_index,
        req.prev_log_term,
    )
    &&& forall|i: int|
        #![trigger rpc::decode_entries(req.entries)[i]]
        0 <= i < rpc::decode_entries(req.entries).len() && rpc::decode_entries(req.entries)[i].index
            <= s.commit_index ==> rpc::holds_entry(s, rpc::decode_entries(req.entries)[i])
}

/// Entries that do not contradict what is committed keep the state sound, and the commit index
/// does not go back.
pub proof fn append_entries_keep_sound(s: StateView, req: AppendMessage)
    requires
        sound(s),
        orderly(req),
        agrees_where_committed(s, req),
    ensures
        sound(rpc::after_append_entries(s, req)),
        rpc::after_append_entries(s, req).commit_index >= s.commit_index,
{
    let t = rpc::with_term_of(s, req.term);
    if req.term >= t.current_term {
        let f = rpc::follows(s, req.term, req.leader_id);
        last_index_counts_all(f);
        if rpc::agrees_at(f, req.prev_log_index, req.prev_log_term) {
            let log = rpc::replicated_log(f, req.entries);
            let g = StateView { log, ..f };
            let entries = rpc::decode_entries(req.entries);
            let k = rpc::news_is_a_suffix(f, entries);
            if k < entries.len() {
                let from = entries[k].index as int;
                let fresh = entries.skip(k);
                if k > 0 {
                    assert(rpc::holds_entry(f, entries[k - 1]));
                }
                assert(!rpc::holds_entry(s, entries[k]));
                assert(s.commit_index < from <= f.log_offset + f.log.len() + 1);
                let kept = f.truncated_log(from);
                assert(kept.len() == from - 1 - f.log_offset);
                assert(log =~= kept + fresh);
                assert forall|i: int| 0 <= i < log.len() implies (#[trigger] log[i]).index
                    == f.log_offset + i + 1 by {
                    if i < kept.len() {
                        assert(log[i] == f.log[i]);
                    } else {
                        assert(log[i] == entries[k + i - kept.len()]);
                    }
                }
            }
            assert(contiguous(g));
            last_index_counts_all(g);
        } else if f.has_entry(req.prev_log_index as int) {
            let g = rpc::after_append_entries(s, req);
            assert(contiguous(g));
            last_index_counts_all(g);
        }
    }
}

/// What a log has of the entries of a request stays, with all that follows it: a request that
/// brings nothing new, however late it comes, leaves the log as it is.
pub proof fn late_entries_change_nothing(s: StateView, req: AppendMessage)
    requires
        rpc::accepts_entries(s, req),
        forall|i: int|
            #![trigger rpc::decode_entries(req.entries)[i]]
            0 <= i < rpc::decode_entries(req.entries).len() ==> rpc::holds_entry(
                s,
                rpc::decode_entries(req.entries)[i],
            ),
    ensures
        rpc::after_append_entries(s, req).log == s.log,
{
    let f = rpc::follows(s, req.term, req.leader_id);
    let entries = rpc::decode_entries(req.entries);
    let k = rpc::news_is_a_suffix(f, entries);
    if k < entries.len() {
        assert(rpc::holds_entry(s, entries[k]));
    }
}

/// A snapshot from a leader keeps the state sound, and neither what is committed nor what is
/// applied goes back.
pub proof fn install_snapshot_keeps_sound(s: StateView, req: SnapshotMessage)
    requires
        sound(s),
        req.last_included_index < u64::MAX,
    ensures
        sound(rpc::after_install_snapshot(s, req)),
        rpc::after_install_snapshot(s, req).commit_index >= s.commit_index,
        rpc::after_install_snapshot(s, req).last_applied >= s.last_applied,
{
    let f = rpc::follows(s, req.term, req.leader_id);
    let g = rpc::after_install_snapshot(s, req);
    if rpc::snapshot_is_news(s, req) {
        assert forall|i: int| 0 <= i < g.log.len() implies (#[trigger] g.log[i]).index
            == g.log_offset + i + 1 by {
            assert(g.log[i] == f.log[i + req.last_included_index - f.log_offset]);
        }
    }
}

/// Compaction keeps the state sound. Last index and last term stay, and so does every entry that
/// is not compacted; the log gets shorter by what was compacted.
pub proof fn compaction_keeps_sound(s: StateView, jobs: Seq<SnapshotJobView>, workers: Seq<u64>)
    requires
        sound(s),
        s.has_entry(s.last_applied as int),
    ensures
        sound(s.compacted(jobs, workers)),
        s.compacted(jobs, workers).last_index() == s.last_index(),
        s.compacted(jobs, workers).last_term() == s.last_term(),
        s.compacted(jobs, workers).commit_index == s.commit_index,
        s.compacted(jobs, workers).log.len() < s.log.len(),
        forall|i: int|
            s.compacted(jobs, workers).has_entry(i) ==> s.has_entry(i) && #[trigger] s.compacted(
                jobs,
                workers,
            ).entry(i) == s.entry(i),
{
    let c = s.compacted(jobs, workers);
    last_index_counts_all(s);
    assert forall|i: int| 0 <= i < c.log.len() implies (#[trigger] c.log[i]).index == c.log_offset
        + i + 1 by {
        assert(c.log[i] == s.log[i + s.last_applied - s.log_offset]);
    }
    last_index_counts_all(c);
    if c.log.len() == 0 {
        assert(s.log.last() == s.entry(s.last_applied as int));
    } else {
        assert(c.log.last() == s.log.last());
    }
}

/// Applying the committed entries keeps the state sound; all that is committed is then applied.
pub proof fn applying_keeps_sound(s: StateView)
    requires
        sound(s),
    ensures
        sound(node::applied_all(s)),
        node::applied_all(s).last_applied == s.commit_index,
{
}

/// In a sound state the entries to apply are exactly those after the last applied one up to the
/// commit index, in order and without gaps.
pub proof fn unapplied_entries_in_order(s: StateView)
    requires
        sound(s),
    ensures
        node::unapplied(s).len() == s.commit_index - s.last_applied,
        forall|i: int|
            0 <= i < node::unapplied(s).len() ==> #[trigger] node::unapplied(s)[i] == s.entry(
                s.last_applied + 1 + i,
            ),
{
    between_in_order(s, s.last_applied as int, s.commit_index as int);
}

proof fn between_in_order(s: StateView, from: int, to: int)
    requires
        s.log_offset <= from <= to <= s.log_offset + s.log.len(),
    ensures
        node::entries_between(s, from, to).len() == to - from,
        forall|i: int|
            0 <= i < to - from ==> #[trigger] node::entries_between(s, from, to)[i] == s.entry(
                from + 1 + i,
            ),
    decreases to - from,
{
    if from < to {
        between_in_order(s, from, to - 1);
        let front = node::entries_between(s, from, to - 1);
        assert(node::entries_between(s, from, to) =~= front.push(s.entry(to)));
        assert forall|i: int| 0 <= i < to - from implies #[trigger] node::entries_between(
            s,
            from,
            to,
        )[i] == s.entry(from + 1 + i) by {
            if i < to - 1 - from {
                assert(front[i] == s.entry(from + 1 + i));
            }
        }
    }
}

// ---------------------------------------------------------------------------
// Commits
// ---------------------------------------------------------------------------

/// A leader's commit index never goes back, and moves only to an entry of its own term that a
/// majority of the nodes is known to hold.
pub proof fn leader_commits_by_majority(s: StateView)
    requires
        s.match_index.dom().finite(),
    ensures
        node::commit_advanced(s).commit_index >= s.commit_index,
        node::commit_advanced(s).commit_index != s.commit_index ==> {
            let m = node::commit_advanced(s).commit_index;
            &&& s.has_entry(m as int)
            &&& s.entry(m as int).term == s.current_term
            &&& node::nodes_holding(s, m) >= node::majority(s)
        },
{
    majority_index_exists(s, u64::MAX);
    assert(node::is_majority_index(s, node::majority_index(s)));
}

/// A leader commits all that it may: no entry of its term that a majority is known to hold stays
/// uncommitted. Terms do not fall along a log, and no peer holds more of it than there is.
pub proof fn leader_commits_all_it_may(s: StateView, index: u64)
    requires
        s.match_index.dom().finite(),
        sound(s),
        forall|p: u64| #[trigger]
            s.match_index.contains_key(p) ==> s.match_index[p] <= s.last_index(),
        forall|i: int, j: int|
            0 <= i <= j < s.log.len() ==> (#[trigger] s.log[i]).term <= (#[trigger] s.log[j]).term,
        forall|i: int| 0 <= i < s.log.len() ==> (#[trigger] s.log[i]).term <= s.current_term,
        s.has_entry(index as int),
        s.entry(index as int).term == s.current_term,
        node::nodes_holding(s, index) >= node::majority(s),
    ensures
        index <= node::commit_advanced(s).commit_index,
{
    let m = node::majority_index(s);
    majority_index_exists(s, u64::MAX);
    last_index_counts_all(s);
    assert(node::is_majority_index(s, m));
    if m < index {
        assert(node::nodes_holding(s, index) < node::majority(s));
    }
    if m > s.last_index() {
        assert(s.match_index.dom().filter(|peer: u64| s.match_index[peer] >= m)
            =~= Set::<u64>::empty());
    }
    assert(s.entry(index as int).term <= s.entry(m as int).term);
}

/// A leader without peers is a majority by itself: what it appends is committed at once.
pub proof fn single_node_commits_at_once(s: StateView, command: CommandView)
    requires
        sound(s),
        s.last_index() + 1 < u64::MAX,
        s.match_index.dom() == Set::<u64>::empty(),
    ensures
        node::commit_advanced(s.appended(command)).commit_index == s.last_index() + 1,
{
    let t = s.appended(command);
    let m = node::majority_index(t);
    let last = t.last_index();
    append_keeps_sound(s, command);
    last_index_counts_all(s);
    last_index_counts_all(t);
    assert forall|i: u64| #[trigger] node::nodes_holding(t, i) == if last >= i {
        1nat
    } else {
        0nat
    } by {
        assert(t.match_index.dom().filter(|peer: u64| t.match_index[peer] >= i)
            =~= Set::<u64>::empty());
    }
    assert(node::is_majority_index(t, last));
    assert(node::is_majority_index(t, m));
    if m < last {
        assert(node::nodes_holding(t, last) < node::majority(t));
    }
    assert(node::nodes_holding(t, m) >= 1);
}

/// There is a largest index that a majority of the nodes is known to hold.
proof fn majority_index_exists(s: StateView, high: u64)
    requires
        s.match_index.dom().finite(),
        forall|other: u64|
            other > high ==> #[trigger] node::nodes_holding(s, other) < node::majority(s),
    ensures
        exists|i: u64| node::is_majority_index(s, i),
    decreases high,
{
    if node::nodes_holding(s, high) >= node::majority(s) {
        assert(node::is_majority_index(s, high));
    } else if high == 0 {
        assert(s.match_index.dom().filter(|peer: u64| s.match_index[peer] >= 0u64)
            =~= s.match_index.dom());
        assert(node::nodes_holding(s, 0) == s.match_index.dom().len() + 1);
    } else {
        majority_index_exists(s, (high - 1) as u64);
    }
}

/// Answers of peers keep a sound state sound.
pub proof fn answers_keep_sound(
    s: StateView,
    peer: u64,
    append: AppendMessage,
    append_answer: AppendEntriesResponse,
    snapshot: SnapshotMessage,
    snapshot_answer: InstallSnapshotResponse,
)
    requires
        sound(s),
    ensures
        sound(node::after_append_response(s, peer, append, append_answer)),
        sound(node::after_snapshot_response(s, peer, snapshot, snapshot_answer)),
{
}

// ---------------------------------------------------------------------------
// Log matching
// ---------------------------------------------------------------------------

/// Two entries are the same to the precision of the wire.
pub open spec fn same_entry(a: EntryView, b: EntryView) -> bool {
    rpc::entry_to_ms(a) == rpc::entry_to_ms(b)
}

/// Where both logs hold an entry at an index up to `index`, it is the same.
pub open spec fn agree_up_to(a: StateView, b: StateView, index: int) -> bool {
    forall|j: int|
        #![trigger a.entry(j)]
        #![trigger b.entry(j)]
        j <= index && a.has_entry(j) && b.has_entry(j) ==> same_entry(a.entry(j), b.entry(j))
}

/// Where both logs hold an entry of the same term at an index, they agree up to that index.
pub open spec fn log_matching(a: StateView, b: StateView) -> bool {
    forall|i: int|
        #![trigger a.entry(i)]
        #![trigger b.entry(i)]
        a.has_entry(i) && b.has_entry(i) && a.entry(i).term == b.entry(i).term ==> agree_up_to(
            a,
            b,
            i,
        )
}

/// The request carries what the log holds behind an entry: the term of that entry, and the
/// entries after it, to the precision of the wire.
pub open spec fn built_from(req: AppendMessage, leader: StateView) -> bool {
    let entries = rpc::decode_entries(req.entries);
    &&& leader.log_offset <= req.prev_log_index <= leader.log_offset + leader.log.len()
    &&& leader.has_entry(req.prev_log_index as int) ==> req.prev_log_term == leader.entry(
        req.prev_log_index as int,
    ).term
    &&& entries.len() == req.entries.len()
    &&& forall|i: int|
        0 <= i < entries.len() ==> leader.has_entry(req.prev_log_index + 1 + i)
            && #[trigger] entries[i] == rpc::entry_to_ms(leader.entry(req.prev_log_index + 1 + i))
}

/// Cutting to the millisecond twice is cutting once.
pub proof fn to_ms_twice(e: EntryView)
    ensures
        rpc::entry_to_ms(rpc::entry_to_ms(e)) == rpc::entry_to_ms(e),
{
    match e.command {
        CommandView::BatchUpdateJobStatus { updates } => {
            let cut = updates.map_values(|u: state::JobStatusUpdate| rpc::update_to_ms(u));
            assert(cut.map_values(|u: state::JobStatusUpdate| rpc::update_to_ms(u)) =~= cut);
        },
        _ => {},
    }
}

/// What a leader sends to a peer that it has entries for, or is level with, carries what its log
/// holds behind the entry before, up to its end.
pub proof fn requests_carry_the_log(leader: StateView, id: u64, peer: u64)
    requires
        sound(leader),
        leader.next_index.contains_key(peer),
        leader.log_offset < leader.next_index[peer] <= leader.last_index() + 1,
        node::carries(
            node::ReplicationMessage::Append(node::append_request(leader, id, peer)),
            leader,
            peer,
        ),
    ensures
        built_from(node::append_request(leader, id, peer), leader),
        node::append_request(leader, id, peer).prev_log_index + node::append_request(
            leader,
            id,
            peer,
        ).entries.len() == leader.last_index(),
{
    let next = leader.next_index[peer];
    let prev = node::before(next);
    let req = node::append_request(leader, id, peer);
    let window = node::replication_window(leader);
    let least = node::least_next(leader.next_index);
    last_index_counts_all(leader);
    least_next_is_least(leader.next_index, peer);
    let wanted = node::before(least);
    let start = if wanted > leader.log_offset {
        wanted as int
    } else {
        leader.log_offset + 1
    };
    let skipped = start - leader.log_offset - 1;
    assert(window =~= leader.log.skip(skipped));
    assert forall|i: int| 0 <= i < window.len() implies (#[trigger] window[i]).index == start
        + i by {
        assert(window[i] == leader.log[skipped + i]);
    }
    suffix_by_index(window, start, next);
    let sent = node::entries_for(leader, peer);
    assert(sent =~= leader.log.skip(next - leader.log_offset - 1));
    if prev > leader.log_offset {
        assert(leader.has_entry(prev as int));
        assert(window[prev - start] == leader.entry(prev as int));
        term_by_index(window, start, prev);
    }
    let entries = rpc::decode_entries(req.entries);
    assert(entries =~= sent.map_values(|e: EntryView| rpc::entry_to_ms(e)));
    assert forall|i: int| 0 <= i < entries.len() implies leader.has_entry(
        req.prev_log_index + 1 + i,
    ) && #[trigger] entries[i] == rpc::entry_to_ms(leader.entry(req.prev_log_index + 1 + i)) by {
        assert(sent[i] == leader.log[next - leader.log_offset - 1 + i]);
    }
}

/// The least of the next indices is no more than that of a given peer.
proof fn least_next_is_least(next: Map<u64, u64>, peer: u64)
    requires
        next.contains_key(peer),
    ensures
        node::least_next(next) <= next[peer],
{
    least_value_exists(next, peer);
    let v = node::least_next(next);
    assert(node::is_least_value(next, v));
}

/// A map with a key has a least value.
proof fn least_value_exists(m: Map<u64, u64>, k: u64)
    requires
        m.contains_key(k),
    ensures
        exists|v: u64| node::is_least_value(m, v),
    decreases m[k],
{
    if exists|j: u64| #[trigger] m.contains_key(j) && m[j] < m[k] {
        let j = choose|j: u64| #[trigger] m.contains_key(j) && m[j] < m[k];
        least_value_exists(m, j);
    } else {
        assert(node::is_least_value(m, m[k]));
    }
}

/// Of entries numbered from `start` on, those from `first` on are a suffix.
proof fn suffix_by_index(entries: Seq<EntryView>, start: int, first: u64)
    requires
        forall|i: int| 0 <= i < entries.len() ==> (#[trigger] entries[i]).index == start + i,
        start <= first <= start + entries.len() || first == start - 1,
    ensures
        entries.filter(|e: EntryView| e.index >= first) == entries.skip(
            if first >= start {
                first - start
            } else {
                0
            },
        ),
    decreases entries.len(),
{
    let which = |e: EntryView| e.index >= first;
    let cut = if first >= start {
        first - start
    } else {
        0
    };
    reveal(Seq::filter);
    if entries.len() > 0 {
        let front = entries.drop_last();
        assert forall|i: int| 0 <= i < front.len() implies (#[trigger] front[i]).index == start
            + i by {
            assert(front[i] == entries[i]);
        }
        assert(entries.last() == entries[entries.len() - 1]);
        if cut < entries.len() {
            suffix_by_index(front, start, first);
            assert(entries.skip(cut) =~= front.skip(cut).push(entries.last()));
        } else {
            none_from(entries, start, first);
            assert(entries.skip(cut) =~= Seq::empty());
        }
    } else {
        assert(entries.skip(cut) =~= Seq::empty());
    }
}

/// Of entries numbered from `start` on none is from `first` on when `first` lies past them.
proof fn none_from(entries: Seq<EntryView>, start: int, first: u64)
    requires
        forall|i: int| 0 <= i < entries.len() ==> (#[trigger] entries[i]).index == start + i,
        first >= start + entries.len(),
    ensures
        entries.filter(|e: EntryView| e.index >= first) == Seq::<EntryView>::empty(),
    decreases entries.len(),
{
    reveal(Seq::filter);
    if entries.len() > 0 {
        let front = entries.drop_last();
        assert forall|i: int| 0 <= i < front.len() implies (#[trigger] front[i]).index == start
            + i by {
            assert(front[i] == entries[i]);
        }
        assert(entries.last() == entries[entries.len() - 1]);
        none_from(front, start, first);
    }
}

/// Of entries numbered from `start` on the one with an index is found in its place.
proof fn term_by_index(entries: Seq<EntryView>, start: int, index: u64)
    requires
        forall|i: int| 0 <= i < entries.len() ==> (#[trigger] entries[i]).index == start + i,
        start <= index < start + entries.len(),
    ensures
        node::term_of_index(entries, index) == entries[index - start].term,
    decreases entries.len(),
{
    if index > start {
        let rest = entries.skip(1);
        assert forall|i: int| 0 <= i < rest.len() implies (#[trigger] rest[i]).index == start + 1
            + i by {
            assert(rest[i] == entries[i + 1]);
        }
        term_by_index(rest, start + 1, index);
        assert(rest[index - start - 1] == entries[index - start]);
    }
}

/// A peer that needs entries which are compacted is sent the snapshot, and a peer that accepts a
/// snapshot ahead of it has the leader's state up to the end of the snapshot.
pub proof fn snapshot_brings_agreement(follower: StateView, req: SnapshotMessage)
    requires
        rpc::snapshot_is_news(follower, req),
    ensures
        rpc::after_install_snapshot(follower, req).snapshot == Some(rpc::decode_snapshot(req)),
        rpc::after_install_snapshot(follower, req).log_offset == req.last_included_index,
        rpc::after_install_snapshot(follower, req).commit_index == req.last_included_index,
        rpc::agrees_at(
            rpc::after_install_snapshot(follower, req),
            req.last_included_index,
            req.last_included_term,
        ),
{
}

// ---------------------------------------------------------------------------
// Partitions
// ---------------------------------------------------------------------------

/// Cutting a connected peer off and bringing it back leaves the links as they were, and so does
/// bringing a peer back and cutting it off.
pub proof fn reconnecting_undoes_disconnecting(links: node::Links, peer: u64)
    requires
        links.connected.disjoint(links.cut_off),
    ensures
        links.connected.contains(peer) ==> node::after_reconnect(
            node::after_disconnect(links, peer),
            peer,
        ) == links,
        links.cut_off.contains(peer) ==> node::after_disconnect(
            node::after_reconnect(links, peer),
            peer,
        ) == links,
{
    if links.connected.contains(peer) {
        assert(node::after_reconnect(node::after_disconnect(links, peer), peer) =~= links);
    }
    if links.cut_off.contains(peer) {
        assert(node::after_disconnect(node::after_reconnect(links, peer), peer) =~= links);
    }
}

/// Cutting all peers off leaves no connection, and bringing all back then restores those there
/// were.
pub proof fn isolation_heals(links: node::Links)
    requires
        links.cut_off == Set::<u64>::empty(),
    ensures
        node::after_disconnect_all(links).connected == Set::<u64>::empty(),
        node::after_reconnect_all(node::after_disconnect_all(links)) == links,
{
    assert(node::after_reconnect_all(node::after_disconnect_all(links)) =~= links);
}

/// No peer is lost: every peer stays connected or cut off, and none is both.
pub proof fn partitions_lose_no_peer(links: node::Links, peer: u64)
    requires
        links.connected.disjoint(links.cut_off),
    ensures
        same_peers(links, node::after_disconnect(links, peer)),
        same_peers(links, node::after_reconnect(links, peer)),
        same_peers(links, node::after_disconnect_all(links)),
        same_peers(links, node::after_reconnect_all(links)),
{
}

/// The same peers, each either connected or cut off.
pub open spec fn same_peers(a: node::Links, b: node::Links) -> bool {
    &&& b.connected.disjoint(b.cut_off)
    &&& forall|peer: u64|
        #![trigger b.connected.contains(peer)]
        #![trigger b.cut_off.contains(peer)]
        a.connected.contains(peer) || a.cut_off.contains(peer) <==> b.connected.contains(peer)
            || b.cut_off.contains(peer)
}

// ---------------------------------------------------------------------------
// Restarts
// ---------------------------------------------------------------------------

/// `p` is what a node in state `s` has stored.
pub open spec fn stored(s: StateView, p: PersistedState) -> bool {
    &&& p.current_term == s.current_term
    &&& p.voted_for == s.voted_for
    &&& p.log_offset == s.log_offset
    &&& state::opt_snapshot(p.snapshot) == s.snapshot
    &&& state::entries_view(p.log@) == s.log
}

/// A node that restarts from what it stored is in a sound state, has its term, its vote and its
/// log, and takes up where its snapshot ends.
pub proof fn restart_keeps_state(s: StateView, p: PersistedState)
    requires
        sound(s),
        stored(s, p),
    ensures
        sound(node::restored_state(p)),
        vote_kept(s, node::restored_state(p)),
        node::restored_state(p).current_term == s.current_term,
        node::restored_state(p).log == s.log,
        node::restored_state(p).last_index() == s.last_index(),
        node::restored_state(p).last_term() == s.last_term(),
        node::restored_state(p).last_applied == s.log_offset,
        node::restored_state(p).role is Follower,
{
}

/// A node that voted does not vote for another candidate of that term after a restart.
pub proof fn one_vote_per_term_across_restarts(
    s: StateView,
    first: VoteRequest,
    p: PersistedState,
    second: VoteRequest,
)
    requires
        rpc::grants_vote(s, first),
        stored(rpc::after_vote_request(s, first), p),
        rpc::grants_vote(node::restored_state(p), second),
        first.term == second.term,
    ensures
        first.candidate_id == second.candidate_id,
{
    let t = node::restored_state(p);
    if first.candidate_id != second.candidate_id {
        vote_holds_within_term(rpc::after_vote_request(s, first), t, second);
    }
}

} // verus!
