//! What a cluster promises as a whole, in every run of its events: one leader in a term, logs
//! that match, and commands that stay once they are committed.

use crate::clock::Moment;
use crate::node;
use crate::node::Machine;
use crate::node_laws;
use crate::raft::cluster;
use crate::raft::cluster::{Cluster, Event};
use crate::raft::laws;
use crate::raft::node as raft_node;
use crate::raft::rpc;
use crate::raft::safety;
use crate::raft::state::EntryView;
use vstd::prelude::*;

verus! {

/// The cluster after the first `n` of these events.
pub open spec fn moment(members: Set<u64>, events: Seq<Event>, n: int) -> Cluster {
    cluster::cluster_after(members, events.take(n))
}

/// A run of a cluster, and two moments of it.
pub open spec fn run(members: Set<u64>, events: Seq<Event>, i: int, j: int) -> bool {
    &&& cluster::can_be_members(members)
    &&& cluster::can_happen(members, events)
    &&& 0 <= i <= j <= events.len()
}

/// The number of entries that both have committed.
pub open spec fn both_committed(c: Cluster, v: u64, d: Cluster, w: u64) -> u64 {
    if c.nodes[v].commit_index <= d.nodes[w].commit_index {
        c.nodes[v].commit_index
    } else {
        d.nodes[w].commit_index
    }
}

/// Election safety: in a term at most one node leads, however far apart the moments are.
pub proof fn one_leader_per_term(
    members: Set<u64>,
    events: Seq<Event>,
    i: int,
    j: int,
    v: u64,
    w: u64,
)
    requires
        run(members, events, i, j),
        members.contains(v),
        members.contains(w),
        moment(members, events, i).nodes[v].role is Leader,
        moment(members, events, j).nodes[w].role is Leader,
        moment(members, events, i).nodes[v].current_term == moment(
            members,
            events,
            j,
        ).nodes[w].current_term,
    ensures
        v == w,
{
    let c = moment(members, events, i);
    let d = moment(members, events, j);
    moments_ok(members, events, i, j);
    node_facts(c, v);
    node_facts(d, w);
    let term = c.term(v);
    safety::share_none(c.lead(term), c.lead(term));
    lasts(members, events, i, j, term, c.lead(term), 0);
}

/// Leader append-only: while a node leads in a term, its log keeps every entry it had.
pub proof fn leaders_only_append(members: Set<u64>, events: Seq<Event>, i: int, j: int, v: u64)
    requires
        run(members, events, i, j),
        members.contains(v),
        moment(members, events, i).nodes[v].role is Leader,
        moment(members, events, j).nodes[v].role is Leader,
        moment(members, events, i).nodes[v].current_term == moment(
            members,
            events,
            j,
        ).nodes[v].current_term,
    ensures
        safety::shares(
            moment(members, events, i).logs[v],
            moment(members, events, j).logs[v],
            moment(members, events, i).logs[v].len() as int,
        ),
{
    let c = moment(members, events, i);
    let d = moment(members, events, j);
    let log = c.logs[v];
    let n = log.len() as int;
    moments_ok(members, events, i, j);
    node_facts(c, v);
    node_facts(d, v);
    safety::share_take(log, n, n);
    lasts(members, events, i, j, c.term(v), log, n);
    safety::share_swap(d.lead(d.term(v)), log, n);
}

/// Log matching: where the logs of two nodes hold an entry of the same term at an index, they
/// hold the same entries up to that index, however far apart the moments are.
pub proof fn logs_match(
    members: Set<u64>,
    events: Seq<Event>,
    i: int,
    j: int,
    v: u64,
    w: u64,
)
    requires
        run(members, events, i, j),
        members.contains(v),
        members.contains(w),
    ensures
        laws::log_matching(
            moment(members, events, i).nodes[v],
            moment(members, events, j).nodes[w],
        ),
{
    let c = moment(members, events, i);
    let d = moment(members, events, j);
    let s = c.nodes[v];
    let t = d.nodes[w];
    moments_ok(members, events, i, j);
    assert(c.node_ok(v));
    assert(d.node_ok(w));
    assert forall|k: int|
        #![trigger s.entry(k)]
        #![trigger t.entry(k)]
        s.has_entry(k) && t.has_entry(k) && s.entry(k).term == t.entry(k).term implies
        laws::agree_up_to(s, t, k) by {
        let term = s.entry(k).term;
        safety::covered_entry(s, c.logs[v], k);
        safety::covered_entry(t, d.logs[w], k);
        safety::rooted_at(c, c.logs[v], k);
        safety::rooted_at(d, d.logs[w], k);
        lasts(members, events, i, j, term, c.logs[v], k);
        safety::share_swap(d.lead(term), c.logs[v], k);
        safety::share_through(c.logs[v], d.lead(term), d.logs[w], k, k);
        shared_is_held(c, v, d, w, k);
    }
}

/// Leader completeness: what a node has committed is in the log of every node that leads later in
/// the same or a later term.
pub proof fn leaders_have_what_is_committed(
    members: Set<u64>,
    events: Seq<Event>,
    i: int,
    j: int,
    v: u64,
    w: u64,
)
    requires
        run(members, events, i, j),
        members.contains(v),
        members.contains(w),
        moment(members, events, j).nodes[w].role is Leader,
        moment(members, events, i).nodes[v].current_term <= moment(
            members,
            events,
            j,
        ).nodes[w].current_term,
    ensures
        moment(members, events, i).nodes[v].commit_index <= moment(
            members,
            events,
            j,
        ).nodes[w].last_index(),
        laws::agree_up_to(
            moment(members, events, i).nodes[v],
            moment(members, events, j).nodes[w],
            moment(members, events, i).nodes[v].commit_index as int,
        ),
        safety::shares(
            moment(members, events, i).logs[v],
            moment(members, events, j).logs[w],
            moment(members, events, i).nodes[v].commit_index as int,
        ),
{
    let c = moment(members, events, i);
    let d = moment(members, events, j);
    let m = c.nodes[v].commit_index as int;
    moments_ok(members, events, i, j);
    node_facts(c, v);
    node_facts(d, w);
    safety::covered_end(d.nodes[w], d.logs[w]);
    if m == 0 {
        safety::share_none(c.logs[v], d.logs[w]);
    } else {
        let by = choose|by: u64| #[trigger] c.committed_by(v, m, by);
        lasts(members, events, i, j, by, c.logs[v], m);
        settled_is_in_leader(d, w, by, c.logs[v], m);
    }
    safety::share_bounds(c.logs[v], d.logs[w], m);
    shared_is_held(c, v, d, w, m);
}

/// State machine safety: two nodes never commit different entries at an index, and so never apply
/// different commands there, however far apart the moments are.
pub proof fn committed_entries_agree(
    members: Set<u64>,
    events: Seq<Event>,
    i: int,
    j: int,
    v: u64,
    w: u64,
)
    requires
        run(members, events, i, j),
        members.contains(v),
        members.contains(w),
    ensures
        laws::agree_up_to(
            moment(members, events, i).nodes[v],
            moment(members, events, j).nodes[w],
            both_committed(moment(members, events, i), v, moment(members, events, j), w) as int,
        ),
        safety::shares(
            moment(members, events, i).logs[v],
            moment(members, events, j).logs[w],
            both_committed(moment(members, events, i), v, moment(members, events, j), w) as int,
        ),
{
    let c = moment(members, events, i);
    let d = moment(members, events, j);
    let m = both_committed(c, v, d, w) as int;
    moments_ok(members, events, i, j);
    node_facts(c, v);
    node_facts(d, w);
    safety::committed_less(c, v, c.nodes[v].commit_index as int, m);
    safety::committed_less(d, w, d.nodes[w].commit_index as int, m);
    if m == 0 {
        safety::share_none(c.logs[v], d.logs[w]);
    } else {
        let one = choose|by: u64| #[trigger] c.committed_by(v, m, by);
        let two = choose|by: u64| #[trigger] d.committed_by(w, m, by);
        lasts(members, events, i, j, one, c.logs[v], m);
        safety::share_swap(d.lead(one), c.logs[v], m);
        if one < two {
            safety::settled_is_led(d, one, m, two);
            safety::share_swap(d.lead(two), d.lead(one), m);
        } else if two < one {
            safety::settled_is_led(d, two, m, one);
        } else {
            safety::share_bounds(d.lead(one), c.logs[v], m);
            safety::share_take(d.lead(one), d.lead(one).len() as int, m);
        }
        safety::share_through(c.logs[v], d.lead(one), d.lead(two), m, m);
        safety::share_through(c.logs[v], d.lead(two), d.logs[w], m, m);
    }
    shared_is_held(c, v, d, w, m);
}

/// Replicas come to the same jobs: what the jobs are after the first `m` entries of a node's log,
/// all of them committed, is the same on every node that has committed as many, whenever the
/// entries are applied.
pub proof fn replicas_come_to_the_same_jobs(
    members: Set<u64>,
    events: Seq<Event>,
    i: int,
    j: int,
    v: u64,
    w: u64,
    m: int,
    start: Machine,
    capacity: usize,
    now: Moment,
    later: Moment,
)
    requires
        run(members, events, i, j),
        members.contains(v),
        members.contains(w),
        0 <= m <= moment(members, events, i).nodes[v].commit_index,
        m <= moment(members, events, j).nodes[w].commit_index,
    ensures
        node::apply_all(start, capacity, moment(members, events, i).logs[v].take(m), now).jobs
            == node::apply_all(
            start,
            capacity,
            moment(members, events, j).logs[w].take(m),
            later,
        ).jobs,
{
    let a = moment(members, events, i).logs[v];
    let b = moment(members, events, j).logs[w];
    committed_entries_agree(members, events, i, j, v, w);
    assert(a.take(m) =~= b.take(m)) by {
        reveal(safety::shares);
    }
    node_laws::jobs_are_replicated(start, start, capacity, a.take(m), now, later);
}

/// A client is answered only about what is committed: where a node that led in a term and appended
/// a command then tells that the command is committed, the very same entry still stands in its
/// log and is committed.
pub proof fn answered_proposals_are_committed(
    members: Set<u64>,
    events: Seq<Event>,
    i: int,
    j: int,
    v: u64,
    index: u64,
)
    requires
        run(members, events, i, j),
        members.contains(v),
        moment(members, events, i).nodes[v].role is Leader,
        1 <= index <= moment(members, events, i).logs[v].len(),
        moment(members, events, i).logs[v][index - 1].term == moment(
            members,
            events,
            i,
        ).nodes[v].current_term,
        raft_node::proposal_state_of(
            moment(members, events, j).nodes[v],
            index,
            moment(members, events, i).nodes[v].current_term,
        ) is Committed,
    ensures
        index <= moment(members, events, j).nodes[v].commit_index,
        index <= moment(members, events, j).logs[v].len(),
        moment(members, events, j).logs[v][index - 1] == moment(members, events, i).logs[v][index
            - 1],
{
    let c = moment(members, events, i);
    let d = moment(members, events, j);
    let s = d.nodes[v];
    let term = c.term(v);
    moments_ok(members, events, i, j);
    node_facts(c, v);
    node_facts(d, v);
    assert(c.logs[v] == c.lead(term));
    safety::share_take(c.logs[v], c.logs[v].len() as int, index as int);
    lasts(members, events, i, j, term, c.logs[v], index as int);
    safety::share_bounds(d.lead(term), c.logs[v], index as int);
    safety::leader_entry_stays(d, v, term, index);
    safety::share_at(d.lead(term), c.logs[v], index as int, index - 1);
    safety::share_at(d.lead(term), d.logs[v], index as int, index - 1);
}

/// A node's state holds its whole log, but for what a snapshot took the place of.
pub proof fn nodes_hold_their_logs(members: Set<u64>, events: Seq<Event>, v: u64, index: int)
    requires
        cluster::can_be_members(members),
        cluster::can_happen(members, events),
        members.contains(v),
        cluster::cluster_after(members, events).nodes[v].has_entry(index),
    ensures
        1 <= index <= cluster::cluster_after(members, events).logs[v].len(),
        rpc::entry_to_ms(cluster::cluster_after(members, events).nodes[v].entry(index))
            == cluster::cluster_after(members, events).logs[v][index - 1],
        laws::sound(cluster::cluster_after(members, events).nodes[v]),
        cluster::cluster_after(members, events).nodes[v].last_index() == cluster::cluster_after(
            members,
            events,
        ).logs[v].len(),
{
    let c = cluster::cluster_after(members, events);
    safety::ok_throughout(members, events);
    assert(c.node_ok(v));
    safety::covered_entry(c.nodes[v], c.logs[v], index);
    safety::covered_end(c.nodes[v], c.logs[v]);
}

/// What holds of a node of a cluster in order.
proof fn node_facts(c: Cluster, id: u64)
    requires
        c.ok(),
        c.members.contains(id),
    ensures
        laws::sound(c.nodes[id]),
        safety::covers(c.nodes[id], c.logs[id]),
        c.committed(id, c.nodes[id].commit_index as int),
        c.nodes[id].role is Leader ==> {
            &&& c.reigns.contains_key(c.term(id))
            &&& c.logs[id] == c.lead(c.term(id))
            &&& c.reigns[c.term(id)].leader == id
        },
{
    assert(c.node_ok(id));
}

/// A leader has what is committed by way of the leader of its term or an earlier one.
proof fn settled_is_in_leader(c: Cluster, id: u64, by: u64, log: Seq<EntryView>, m: int)
    requires
        c.ok(),
        c.members.contains(id),
        c.nodes[id].role is Leader,
        by <= c.term(id),
        0 <= m,
        c.settled(by, m),
        safety::shares(c.lead(by), log, m),
    ensures
        safety::shares(log, c.logs[id], m),
{
    let now = c.term(id);
    node_facts(c, id);
    if by < now {
        safety::settled_is_led(c, by, m, now);
        safety::share_through(c.lead(now), c.lead(by), log, m, m);
    }
    safety::share_swap(c.lead(now), log, m);
}

proof fn moments_ok(members: Set<u64>, events: Seq<Event>, i: int, j: int)
    requires
        run(members, events, i, j),
    ensures
        moment(members, events, i).ok(),
        moment(members, events, j).ok(),
        moment(members, events, i).members == members,
        moment(members, events, j).members == members,
{
    safety::prefix_can_happen(members, events, i);
    safety::prefix_can_happen(members, events, j);
    safety::ok_throughout(members, events.take(i));
    safety::ok_throughout(members, events.take(j));
}

/// What is shared with a leader at a moment is shared later, and what is committed stays so.
proof fn lasts(
    members: Set<u64>,
    events: Seq<Event>,
    i: int,
    j: int,
    term: u64,
    log: Seq<EntryView>,
    m: int,
)
    requires
        run(members, events, i, j),
        moment(members, events, i).reigns.contains_key(term),
        safety::shares(moment(members, events, i).lead(term), log, m),
    ensures
        moment(members, events, j).reigns.contains_key(term),
        moment(members, events, j).reigns[term].leader == moment(members, events, i).reigns[term].leader,
        safety::shares(moment(members, events, j).lead(term), log, m),
        moment(members, events, i).settled(term, m) ==> moment(members, events, j).settled(term, m),
{
    safety::prefix_can_happen(members, events, j);
    assert(events.take(j).take(i) =~= events.take(i));
    safety::records_last(members, events.take(j), i, term, log, m);
}

/// Entries that the whole logs share are the same where both nodes hold them.
proof fn shared_is_held(c: Cluster, v: u64, d: Cluster, w: u64, m: int)
    requires
        safety::covers(c.nodes[v], c.logs[v]),
        safety::covers(d.nodes[w], d.logs[w]),
        safety::shares(c.logs[v], d.logs[w], m),
    ensures
        laws::agree_up_to(c.nodes[v], d.nodes[w], m),
{
    let s = c.nodes[v];
    let t = d.nodes[w];
    assert forall|k: int|
        #![trigger s.entry(k)]
        #![trigger t.entry(k)]
        k <= m && s.has_entry(k) && t.has_entry(k) implies laws::same_entry(
        s.entry(k),
        t.entry(k),
    ) by {
        safety::covered_entry(s, c.logs[v], k);
        safety::covered_entry(t, d.logs[w], k);
        safety::share_at(c.logs[v], d.logs[w], m, k - 1);
    }
}

} // verus!
