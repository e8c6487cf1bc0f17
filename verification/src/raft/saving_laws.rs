//! What holds of a node that stores its state: what is due to be written after a step brings the
//! store up to date, and a restart finds the state again.

use crate::proto::{AppendMessage, SnapshotMessage};
use crate::raft::cluster::{Cluster, Event};
use crate::raft::cluster_laws;
use crate::raft::laws;
use crate::raft::node;
use crate::raft::rpc;
use crate::raft::safety;
use crate::raft::state;
use crate::raft::state::{CommandView, EntryView, SnapshotJobView, SnapshotView, StateView};
use crate::raft::storage;
use crate::raft::storage::{HardState, PersistedState, PlannedWrite, StorageError};
use crate::raft::storage_laws;
use crate::raft::storage_laws::{Store, Write};
use vstd::prelude::*;

verus! {

// ---------------------------------------------------------------------------
// Stores and states
// ---------------------------------------------------------------------------

/// How entries and snapshots are turned into bytes.
pub struct Coding {
    pub entry: spec_fn(EntryView) -> Seq<u8>,
    pub snapshot: spec_fn(SnapshotView) -> Seq<u8>,
}

impl Coding {
    /// What was turned into bytes can be told from them.
    pub open spec fn faithful(self) -> bool {
        &&& forall|a: EntryView, b: EntryView|
            #[trigger] (self.entry)(a) == #[trigger] (self.entry)(b) ==> a == b
        &&& forall|a: SnapshotView, b: SnapshotView|
            #[trigger] (self.snapshot)(a) == #[trigger] (self.snapshot)(b) ==> a == b
    }
}

/// What is written where a write is due in state `s`.
pub open spec fn write_of(write: PlannedWrite, s: StateView, coding: Coding) -> Write {
    match write {
        PlannedWrite::HardState { term, voted_for, log_offset } => Write::HardState {
            term,
            voted_for,
            log_offset,
        },
        PlannedWrite::Truncate { from } => Write::Truncate { from },
        PlannedWrite::Snapshot { last } => Write::Snapshot {
            data: (coding.snapshot)(s.snapshot->0),
            last,
        },
        PlannedWrite::Entry { place } => Write::Entry {
            index: s.log[place as int].index,
            value: (coding.entry)(s.log[place as int]),
        },
    }
}

/// What is written where several writes are due.
pub open spec fn writes_of(
    planned: Seq<PlannedWrite>,
    s: StateView,
    coding: Coding,
) -> Seq<Write> {
    planned.map_values(|write: PlannedWrite| write_of(write, s, coding))
}

/// The bytes of the snapshot of a state.
pub open spec fn coded_snapshot(s: StateView, coding: Coding) -> Option<Seq<u8>> {
    match s.snapshot {
        Some(snapshot) => Some((coding.snapshot)(snapshot)),
        None => None,
    }
}

/// The stored entries past `offset` are those of `s` up to `end`.
pub open spec fn tells_entries(
    writes: Seq<Write>,
    s: StateView,
    offset: int,
    end: int,
    coding: Coding,
) -> bool {
    let stored = storage_laws::stored_entries(writes);
    forall|i: u64|
        i > offset ==> {
            &&& #[trigger] stored.contains_key(i) <==> s.has_entry(i as int) && i <= end
            &&& stored.contains_key(i) ==> stored[i] == (coding.entry)(s.entry(i as int))
        }
}

/// A store with this history of writes tells the state: its term, its vote, its offset, its
/// snapshot, and the entries of its log.
pub open spec fn tells(writes: Seq<Write>, s: StateView, coding: Coding) -> bool {
    &&& storage_laws::last_hard_state(writes) == Some((s.current_term, s.voted_for))
    &&& storage_laws::last_offset(writes) == Some(s.log_offset)
    &&& storage_laws::last_snapshot(writes) == coded_snapshot(s, coding)
    &&& tells_entries(
        writes,
        s,
        s.log_offset as int,
        s.log_offset + s.log.len(),
        coding,
    )
}

/// Past the offset of `t` the logs hold the same entries up to `k`, and there they part.
pub open spec fn agree_until(s: StateView, t: StateView, k: int) -> bool {
    &&& t.log_offset <= k <= t.log_offset + t.log.len()
    &&& forall|i: int|
        t.log_offset < i <= k ==> s.has_entry(i) && #[trigger] s.entry(i) == t.entry(i)
    &&& s.has_entry(k + 1) && t.has_entry(k + 1) ==> s.entry(k + 1).term != t.entry(k + 1).term
}

/// `t` can come after `s`: nothing that was compacted comes back, and where the logs go on with
/// entries of the same term, these are the same.
pub open spec fn can_follow(s: StateView, t: StateView) -> bool {
    &&& laws::sound(s)
    &&& laws::sound(t)
    &&& s.log_offset <= t.log_offset
    &&& s.log_offset == t.log_offset ==> s.snapshot == t.snapshot
    &&& exists|k: int| agree_until(s, t, k)
}

// ---------------------------------------------------------------------------
// One step
// ---------------------------------------------------------------------------

/// One more write changes what the history tells accordingly.
proof fn one_more_write(writes: Seq<Write>, write: Write)
    ensures
        storage_laws::last_hard_state(writes.push(write)) == (match write {
            Write::HardState { term, voted_for, log_offset } => Some((term, voted_for)),
            _ => storage_laws::last_hard_state(writes),
        }),
        storage_laws::last_offset(writes.push(write)) == (match write {
            Write::HardState { term, voted_for, log_offset } => Some(log_offset),
            Write::Snapshot { data, last } => Some(last),
            _ => storage_laws::last_offset(writes),
        }),
        storage_laws::last_snapshot(writes.push(write)) == (match write {
            Write::Snapshot { data, last } => Some(data),
            _ => storage_laws::last_snapshot(writes),
        }),
        storage_laws::stored_entries(writes.push(write)) == (match write {
            Write::HardState { term, voted_for, log_offset } => storage_laws::stored_entries(
                writes,
            ),
            Write::Entry { index, value } => storage_laws::stored_entries(writes).insert(
                index,
                value,
            ),
            Write::Truncate { from } => storage_laws::stored_entries(writes).restrict(
                Set::new(|i: u64| i < from),
            ),
            Write::Snapshot { data, last } => storage_laws::stored_entries(writes).restrict(
                Set::new(|i: u64| !(1 <= i <= last)),
            ),
        }),
{
    assert(writes.push(write).drop_last() =~= writes);
}

/// The positions of the entries past a later offset are the last ones.
proof fn last_positions(log: Seq<EntryView>, before: u64, offset: u64)
    requires
        before + log.len() < u64::MAX,
        before <= offset,
        forall|i: int| 0 <= i < log.len() ==> (#[trigger] log[i]).index == before + i + 1,
    ensures
        offset - before <= log.len() ==> storage::past_offset(storage::positions(log), offset)
            == storage::positions(log).skip(offset - before),
        offset - before > log.len() ==> storage::past_offset(storage::positions(log), offset).len()
            == 0,
    decreases log.len(),
{
    reveal(Seq::filter);
    let all = storage::positions(log);
    if log.len() > 0 {
        let front = log.drop_last();
        last_positions(front, before, offset);
        assert(all.drop_last() =~= storage::positions(front));
        assert(all.last() == (log.last().index, log.last().term));
        if offset - before < log.len() {
            assert(storage::past_offset(all, offset) =~= all.skip(offset - before));
        } else {
            assert(storage::past_offset(all, offset).len() == 0);
            if offset - before == log.len() {
                assert(storage::past_offset(all, offset) =~= all.skip(offset - before));
            }
        }
    } else {
        if offset == before {
            assert(storage::past_offset(all, offset) =~= all.skip(0));
        }
    }
}

/// The entries that are stored already are those up to where the logs part.
proof fn kept_until(s: StateView, t: StateView, k: int)
    requires
        can_follow(s, t),
        agree_until(s, t, k),
    ensures
        ({
            let rest = storage::past_offset(storage::positions(s.log), t.log_offset);
            &&& storage::kept(rest, t.log) == k - t.log_offset
            &&& k - t.log_offset < rest.len() <==> s.has_entry(k + 1)
            &&& s.has_entry(k + 1) ==> rest[k - t.log_offset].0 == k + 1
        }),
{
    let all = storage::positions(s.log);
    let rest = storage::past_offset(all, t.log_offset);
    let skipped = t.log_offset - s.log_offset;
    last_positions(s.log, s.log_offset, t.log_offset);
    assert forall|i: int| 0 <= i < rest.len() implies #[trigger] rest[i] == (
        s.entry(t.log_offset + i + 1).index,
        s.entry(t.log_offset + i + 1).term,
    ) && s.has_entry(t.log_offset + i + 1) by {
        assert(rest[i] == all[skipped + i]);
    }
    assert(skipped <= s.log.len() ==> rest.len() == s.log.len() - skipped);
    assert forall|i: int| 0 <= i < k - t.log_offset implies i < rest.len() && #[trigger] rest[i]
        == (t.log[i].index, t.log[i].term) by {
        let at = t.log_offset + i + 1;
        assert(s.entry(at) == t.entry(at));
    }
    if k - t.log_offset > 0 {
        assert(s.entry(k) == t.entry(k));
    }
    assert(k - t.log_offset <= rest.len());
    storage::kept_is_unique(rest, t.log, k - t.log_offset);
}

/// Entries that are written are stored.
proof fn entries_are_stored(writes: Seq<Write>, t: StateView, from: int, to: int, coding: Coding)
    requires
        laws::sound(t),
        0 <= from <= to <= t.log.len(),
        tells_entries(writes, t, t.log_offset as int, t.log_offset + from, coding),
    ensures
        ({
            let after = writes + writes_of(storage::planned_entries(from, to), t, coding);
            &&& tells_entries(after, t, t.log_offset as int, t.log_offset + to, coding)
            &&& storage_laws::last_hard_state(after) == storage_laws::last_hard_state(writes)
            &&& storage_laws::last_offset(after) == storage_laws::last_offset(writes)
            &&& storage_laws::last_snapshot(after) == storage_laws::last_snapshot(writes)
        }),
    decreases to - from,
{
    let after = writes + writes_of(storage::planned_entries(from, to), t, coding);
    if from == to {
        assert(after =~= writes);
    } else {
        let shorter = writes + writes_of(storage::planned_entries(from, to - 1), t, coding);
        let last = Write::Entry {
            index: t.log[to - 1].index,
            value: (coding.entry)(t.log[to - 1]),
        };
        entries_are_stored(writes, t, from, to - 1, coding);
        assert(after =~= shorter.push(last));
        one_more_write(shorter, last);
        assert(last->index == t.log_offset + to);
        assert(t.entry(t.log_offset + to) == t.log[to - 1]);
    }
}

/// What is due to be written when a node steps from `s` to `t`.
pub open spec fn plan(s: StateView, t: StateView) -> Seq<PlannedWrite> {
    storage::planned(
        s.current_term,
        s.voted_for,
        s.log_offset,
        storage::positions(s.log),
        t,
    )
}

/// The state `s` with the term and the vote of `t`.
spec fn with_vote_of(s: StateView, t: StateView) -> StateView {
    StateView { current_term: t.current_term, voted_for: t.voted_for, ..s }
}

/// The state `s` with `n` entries in its log.
spec fn shortened_to(s: StateView, n: int) -> StateView {
    StateView { log: s.log.take(n), ..s }
}

/// What is due before the entries, in its order.
spec fn plan_before_entries(s: StateView, t: StateView) -> (
    Seq<PlannedWrite>,
    Seq<PlannedWrite>,
    Seq<PlannedWrite>,
) {
    let rest = storage::past_offset(storage::positions(s.log), t.log_offset);
    (
        storage::planned_hard_state(s.current_term, s.voted_for, s.log_offset, t),
        storage::planned_truncation(rest, t),
        storage::planned_snapshot(s.log_offset, t),
    )
}

/// What the store tells after the hard state, after the truncation, and after the snapshot.
proof fn told_before_entries(writes: Seq<Write>, s: StateView, t: StateView, k: int, coding: Coding)
    requires
        tells(writes, s, coding),
        can_follow(s, t),
        agree_until(s, t, k),
    ensures
        ({
            let parts = plan_before_entries(s, t);
            let first = writes + writes_of(parts.0, t, coding);
            let second = writes + writes_of(parts.0 + parts.1, t, coding);
            let third = writes + writes_of(parts.0 + parts.1 + parts.2, t, coding);
            &&& tells(first, with_vote_of(s, t), coding)
            &&& tells(
                second,
                if s.has_entry(k + 1) {
                    shortened_to(with_vote_of(s, t), k - s.log_offset)
                } else {
                    with_vote_of(s, t)
                },
                coding,
            )
            &&& tells(third, shortened_to(t, k - t.log_offset), coding)
        }),
{
    kept_until(s, t, k);
    let parts = plan_before_entries(s, t);
    let due = storage::snapshot_is_due(s.log_offset, t);
    let u = with_vote_of(s, t);
    assert(!due ==> t.log_offset == s.log_offset);
    let hard = Write::HardState {
        term: t.current_term,
        voted_for: t.voted_for,
        log_offset: s.log_offset,
    };
    let cut = Write::Truncate { from: (k + 1) as u64 };
    let snapshot = Write::Snapshot { data: (coding.snapshot)(t.snapshot->0), last: t.log_offset };

    let first = writes + writes_of(parts.0, t, coding);
    if parts.0.len() > 0 {
        one_more_write(writes, hard);
        assert(first =~= writes.push(hard));
    } else {
        assert(first =~= writes);
    }
    assert(tells(first, u, coding)) by {
        assert forall|i: int| s.has_entry(i) implies u.entry(i) == #[trigger] s.entry(i) by {}
        assert(storage_laws::stored_entries(first) == storage_laws::stored_entries(writes));
    }

    let second = writes + writes_of(parts.0 + parts.1, t, coding);
    let v = if s.has_entry(k + 1) {
        shortened_to(u, k - s.log_offset)
    } else {
        u
    };
    if s.has_entry(k + 1) {
        one_more_write(first, cut);
        assert(second =~= first.push(cut));
        assert(tells_entries(
            second,
            v,
            v.log_offset as int,
            v.log_offset + v.log.len(),
            coding,
        )) by {
            let stored = storage_laws::stored_entries(second);
            assert forall|i: u64| i > v.log_offset implies {
                &&& #[trigger] stored.contains_key(i) <==> v.has_entry(i as int) && i
                    <= v.log_offset + v.log.len()
                &&& stored.contains_key(i) ==> stored[i] == (coding.entry)(v.entry(i as int))
            } by {
                assert(storage_laws::stored_entries(first).contains_key(i) <==> u.has_entry(
                    i as int,
                ));
                if v.has_entry(i as int) {
                    assert(v.entry(i as int) == u.entry(i as int));
                }
            }
        }
    } else {
        assert(second =~= first);
    }

    let third = writes + writes_of(parts.0 + parts.1 + parts.2, t, coding);
    let w = shortened_to(t, k - t.log_offset);
    if due {
        one_more_write(second, snapshot);
        assert(third =~= second.push(snapshot));
    } else {
        assert(third =~= second);
    }
    assert(tells_entries(third, w, w.log_offset as int, w.log_offset + w.log.len(), coding)) by {
        let stored = storage_laws::stored_entries(third);
        assert forall|i: u64| i > w.log_offset implies {
            &&& #[trigger] stored.contains_key(i) <==> w.has_entry(i as int) && i <= w.log_offset
                + w.log.len()
            &&& stored.contains_key(i) ==> stored[i] == (coding.entry)(w.entry(i as int))
        } by {
            assert(storage_laws::stored_entries(second).contains_key(i) <==> v.has_entry(i as int));
            if i <= k {
                assert(s.entry(i as int) == t.entry(i as int));
                assert(w.entry(i as int) == t.entry(i as int));
                assert(v.entry(i as int) == s.entry(i as int));
            }
        }
    }
}

/// The state lies between `s` and `t`: its term and vote are those of one of them and so are its
/// offset and its snapshot, its log is the start of that log, and what is new in the log comes
/// after the new term and vote.
pub open spec fn half_way(s: StateView, t: StateView, u: StateView) -> bool {
    &&& u.current_term == s.current_term && u.voted_for == s.voted_for || u.current_term
        == t.current_term && u.voted_for == t.voted_for
    &&& {
        ||| {
            &&& u.log_offset == s.log_offset
            &&& u.snapshot == s.snapshot
            &&& u.log.len() <= s.log.len()
            &&& u.log == s.log.take(u.log.len() as int)
        }
        ||| {
            &&& u.log_offset == t.log_offset
            &&& u.snapshot == t.snapshot
            &&& u.log.len() <= t.log.len()
            &&& u.log == t.log.take(u.log.len() as int)
            &&& u.current_term == t.current_term
            &&& u.voted_for == t.voted_for
        }
    }
}

/// However many of the writes that are due when a node steps from `s` to `t` are written, the
/// store tells a state that makes sense: a crash between two of them does no harm.
pub proof fn half_written_makes_sense(
    writes: Seq<Write>,
    s: StateView,
    t: StateView,
    n: int,
    coding: Coding,
) -> (u: StateView)
    requires
        tells(writes, s, coding),
        can_follow(s, t),
        0 <= n <= plan(s, t).len(),
    ensures
        half_way(s, t, u),
        tells(writes + writes_of(plan(s, t).take(n), t, coding), u, coding),
        n == plan(s, t).len() ==> u == t,
{
    let k = choose|k: int| agree_until(s, t, k);
    let parts = plan_before_entries(s, t);
    let a = parts.0.len() as int;
    let b = a + parts.1.len();
    let c = b + parts.2.len();
    let part = plan(s, t).take(n);
    let written = writes + writes_of(part, t, coding);
    kept_until(s, t, k);
    told_before_entries(writes, s, t, k, coding);
    assert(s.log.take(s.log.len() as int) =~= s.log);
    if n >= c {
        let from = k - t.log_offset;
        let to = from + n - c;
        let third = writes + writes_of(parts.0 + parts.1 + parts.2, t, coding);
        let u = shortened_to(t, to);
        let before = shortened_to(t, from);
        assert(tells_entries(third, t, t.log_offset as int, t.log_offset + from, coding)) by {
            let stored = storage_laws::stored_entries(third);
            assert forall|i: u64| i > t.log_offset implies {
                &&& #[trigger] stored.contains_key(i) <==> t.has_entry(i as int) && i
                    <= t.log_offset + from
                &&& stored.contains_key(i) ==> stored[i] == (coding.entry)(t.entry(i as int))
            } by {
                assert(stored.contains_key(i) <==> before.has_entry(i as int));
                if before.has_entry(i as int) {
                    assert(before.entry(i as int) == t.entry(i as int));
                }
            }
        }
        entries_are_stored(third, t, from, to, coding);
        assert(written =~= third + writes_of(storage::planned_entries(from, to), t, coding));
        assert(tells_entries(written, u, u.log_offset as int, u.log_offset + u.log.len(), coding))
            by {
            let stored = storage_laws::stored_entries(written);
            assert forall|i: u64| i > u.log_offset implies {
                &&& #[trigger] stored.contains_key(i) <==> u.has_entry(i as int) && i
                    <= u.log_offset + u.log.len()
                &&& stored.contains_key(i) ==> stored[i] == (coding.entry)(u.entry(i as int))
            } by {
                assert(stored.contains_key(i) <==> t.has_entry(i as int) && i <= t.log_offset + to);
                if u.has_entry(i as int) {
                    assert(u.entry(i as int) == t.entry(i as int));
                }
            }
        }
        assert(t.log.take(t.log.len() as int) =~= t.log);
        u
    } else if n >= b {
        assert(part =~= parts.0 + parts.1);
        if s.has_entry(k + 1) {
            shortened_to(with_vote_of(s, t), k - s.log_offset)
        } else {
            with_vote_of(s, t)
        }
    } else if n >= a {
        assert(part =~= parts.0);
        with_vote_of(s, t)
    } else {
        assert(part =~= Seq::<PlannedWrite>::empty());
        assert(written =~= writes);
        s
    }
}

/// What is due to be written when a node steps from `s` to `t` brings its store from telling `s`
/// to telling `t`.
pub proof fn planned_writes_are_enough(
    writes: Seq<Write>,
    s: StateView,
    t: StateView,
    coding: Coding,
)
    requires
        tells(writes, s, coding),
        can_follow(s, t),
    ensures
        tells(writes + writes_of(plan(s, t), t, coding), t, coding),
{
    let all = plan(s, t);
    let u = half_written_makes_sense(writes, s, t, all.len() as int, coding);
    assert(all.take(all.len() as int) =~= all);
}

// ---------------------------------------------------------------------------
// Restarts
// ---------------------------------------------------------------------------

/// `p` is what is read from a store, with the bytes turned back into entries and a snapshot.
pub open spec fn loaded(
    store: Store,
    scanned: Seq<(Seq<u8>, Seq<u8>)>,
    p: PersistedState,
    coding: Coding,
) -> bool {
    &&& storage_laws::hard_state_in(store) == Ok::<Option<HardState>, StorageError>(
        Some(
            HardState {
                current_term: p.current_term,
                voted_for: p.voted_for,
                log_offset: p.log_offset,
            },
        ),
    )
    &&& storage_laws::lookup(store, storage::snapshot_key()) == (match state::opt_snapshot(
        p.snapshot,
    ) {
        Some(snapshot) => Some((coding.snapshot)(snapshot)),
        None => None,
    })
    &&& p.log_offset < u64::MAX ==> storage_laws::pair_scan_of(
        scanned,
        store,
        storage::entry_key((p.log_offset + 1) as u64),
    )
    &&& storage::leading_log_values(scanned) == state::entries_view(p.log@).map_values(
        coding.entry,
    )
}

/// Rising numbers that are just those past `low` up to `high` are these one after the other.
proof fn rising_without_gap(indices: Seq<u64>, low: u64, high: int)
    requires
        storage_laws::rising(indices),
        low <= high,
        high < u64::MAX,
        forall|i: u64| #[trigger] indices.contains(i) <==> low < i <= high,
    ensures
        indices.len() == high - low,
        forall|k: int| 0 <= k < indices.len() ==> #[trigger] indices[k] == low + 1 + k,
    decreases indices.len(),
{
    if indices.len() == 0 {
        if low < high {
            assert(indices.contains((low + 1) as u64));
        }
    } else {
        let last = indices.last();
        assert(indices.contains(last));
        assert(indices.contains(high as u64));
        let at = choose|k: int| 0 <= k < indices.len() && indices[k] == high as u64;
        assert(indices[at] == high as u64);
        if at < indices.len() - 1 {
            assert(indices[at] < indices[indices.len() - 1]);
        }
        assert(last == high);
        let front = indices.drop_last();
        assert forall|i: u64| #[trigger] front.contains(i) <==> low < i <= high - 1 by {
            if front.contains(i) {
                let k = choose|k: int| 0 <= k < front.len() && front[k] == i;
                assert(indices[k] == i);
                assert(indices.contains(i));
                assert(indices[k] < indices[indices.len() - 1]);
            }
            if low < i <= high - 1 {
                assert(indices.contains(i));
                let k = choose|k: int| 0 <= k < indices.len() && indices[k] == i;
                assert(front[k] == i);
            }
        }
        rising_without_gap(front, low, high - 1);
        assert forall|k: int| 0 <= k < indices.len() implies #[trigger] indices[k] == low + 1
            + k by {
            if k < front.len() {
                assert(indices[k] == front[k]);
            }
        }
    }
}

/// What a store tells of a state is found again: the term, the vote, the offset, the snapshot and
/// the log.
pub proof fn what_is_told_is_stored(
    writes: Seq<Write>,
    store: Store,
    s: StateView,
    scanned: Seq<(Seq<u8>, Seq<u8>)>,
    p: PersistedState,
    coding: Coding,
)
    requires
        laws::sound(s),
        storage_laws::came_about(writes, store),
        tells(writes, s, coding),
        coding.faithful(),
        loaded(store, scanned, p, coding),
        storage::parsed_voted_for(storage::voted_for_json(s.voted_for)) == Some(s.voted_for),
    ensures
        laws::stored(s, p),
{
    storage_laws::history_of_hard_states_is_loaded(writes, store);
    assert(p.current_term == s.current_term);
    assert(p.voted_for == s.voted_for);
    assert(p.log_offset == s.log_offset);
    storage_laws::store_holds_what_was_written(writes, store);
    assert(storage_laws::lookup(store, storage::snapshot_key()) == coded_snapshot(s, coding));
    assert(state::opt_snapshot(p.snapshot) == s.snapshot);
    let indices = storage_laws::history_of_entries_is_loaded(writes, store, scanned);
    let end = s.log_offset + s.log.len();
    assert forall|i: u64| #[trigger] indices.contains(i) <==> s.log_offset < i <= end by {
        if i > s.log_offset {
            assert(storage_laws::stored_entries(writes).contains_key(i) <==> s.has_entry(i as int));
        }
    }
    rising_without_gap(indices, s.log_offset, end);
    let log = state::entries_view(p.log@);
    let values = storage::leading_log_values(scanned);
    assert(values.len() == indices.len());
    assert(log.len() == values.len());
    assert forall|k: int| 0 <= k < log.len() implies #[trigger] log[k] == s.log[k] by {
        let i = indices[k];
        assert(indices.contains(i));
        assert(storage_laws::stored_entries(writes).contains_key(i));
        assert(values[k] == storage_laws::stored_entries(writes)[i]);
        assert(values[k] == (coding.entry)(log[k]));
        assert(s.entry(i as int) == s.log[k]);
    }
    assert(log =~= s.log);
}

// ---------------------------------------------------------------------------
// Every step can be saved
// ---------------------------------------------------------------------------

/// A step that leaves the log, the offset and the snapshot as they are can be saved.
pub proof fn steps_beside_the_log_can_be_saved(s: StateView, t: StateView)
    requires
        laws::sound(s),
        laws::sound(t),
        t.log == s.log,
        t.log_offset == s.log_offset,
        t.snapshot == s.snapshot,
    ensures
        can_follow(s, t),
{
    assert(agree_until(s, t, s.log_offset + s.log.len()));
}

/// A command that is appended can be saved.
pub proof fn appended_command_can_be_saved(s: StateView, command: CommandView)
    requires
        laws::sound(s),
        s.last_index() + 1 < u64::MAX,
    ensures
        can_follow(s, node::commit_advanced(s.appended(command))),
{
    let t = node::commit_advanced(s.appended(command));
    laws::append_keeps_sound(s, command);
    assert forall|i: int| t.log_offset < i <= s.log_offset + s.log.len() implies s.has_entry(i)
        && #[trigger] s.entry(i) == t.entry(i) by {
        assert(t.log[i - s.log_offset - 1] == s.log[i - s.log_offset - 1]);
    }
    assert(agree_until(s, t, s.log_offset + s.log.len()));
}

/// Entries that are taken over, and those that give way to them, can be saved.
pub proof fn received_entries_can_be_saved(s: StateView, request: AppendMessage)
    requires
        laws::sound(s),
        laws::sound(rpc::after_append_entries(s, request)),
    ensures
        can_follow(s, rpc::after_append_entries(s, request)),
{
    let t = rpc::after_append_entries(s, request);
    let last = s.log_offset + s.log.len();
    let f = rpc::follows(s, request.term, request.leader_id);
    let entries = rpc::decode_entries(request.entries);
    let fresh = rpc::news(f, entries);
    let n = rpc::news_is_a_suffix(f, entries);
    let k = if t.log == s.log {
        last
    } else if rpc::accepts_entries(s, request) {
        assert(fresh.len() > 0);
        assert(fresh[0] == entries[n]);
        if fresh[0].index <= last {
            fresh[0].index - 1
        } else {
            last
        }
    } else {
        request.prev_log_index - 1
    };
    assert(t.log_offset == s.log_offset);
    assert forall|i: int| t.log_offset < i <= k implies s.has_entry(i) && #[trigger] s.entry(i)
        == t.entry(i) by {
        assert(t.log[i - s.log_offset - 1] == s.log[i - s.log_offset - 1]);
    }
    assert(agree_until(s, t, k));
}

/// A snapshot that is taken over can be saved.
pub proof fn received_snapshot_can_be_saved(s: StateView, request: SnapshotMessage)
    requires
        laws::sound(s),
        laws::sound(rpc::after_install_snapshot(s, request)),
    ensures
        can_follow(s, rpc::after_install_snapshot(s, request)),
{
    let t = rpc::after_install_snapshot(s, request);
    let k = t.log_offset + t.log.len();
    assert forall|i: int| t.log_offset < i <= k implies s.has_entry(i) && #[trigger] s.entry(i)
        == t.entry(i) by {
        assert(t.log[i - t.log_offset - 1] == s.log[i - s.log_offset - 1]);
    }
    assert(agree_until(s, t, k));
}

/// A compacted log can be saved.
pub proof fn compaction_can_be_saved(
    s: StateView,
    jobs: Seq<SnapshotJobView>,
    workers: Seq<u64>,
)
    requires
        laws::sound(s),
        s.compactable(),
    ensures
        can_follow(s, s.compacted(jobs, workers)),
{
    let t = s.compacted(jobs, workers);
    laws::compaction_keeps_sound(s, jobs, workers);
    let k = t.log_offset + t.log.len();
    assert forall|i: int| t.log_offset < i <= k implies s.has_entry(i) && #[trigger] s.entry(i)
        == t.entry(i) by {
        assert(t.log[i - t.log_offset - 1] == s.log[i - s.log_offset - 1]);
    }
    assert(agree_until(s, t, k));
}

/// Whatever happens in a cluster, what it changes of a node can be saved.
pub proof fn every_event_can_be_saved(
    members: Set<u64>,
    events: Seq<Event>,
    i: int,
    id: u64,
)
    requires
        cluster_laws::run(members, events, i, i + 1),
        members.contains(id),
    ensures
        can_follow(
            cluster_laws::moment(members, events, i).nodes[id],
            cluster_laws::moment(members, events, i + 1).nodes[id],
        ),
{
    let c = cluster_laws::moment(members, events, i);
    let d = cluster_laws::moment(members, events, i + 1);
    let event = events[i];
    nodes_are_sound(members, events, i, id);
    nodes_are_sound(members, events, i + 1, id);
    assert(d == c.after(event) && c.possible(event)) by {
        safety::prefix_can_happen(members, events, i + 1);
        assert(events.take(i + 1).drop_last() =~= events.take(i));
        assert(events.take(i + 1).last() == event);
    }
    event_can_be_saved(c, event, id);
}

/// The state of a node is sound at every moment of a run.
proof fn nodes_are_sound(members: Set<u64>, events: Seq<Event>, n: int, id: u64)
    requires
        cluster_laws::run(members, events, 0, n),
        members.contains(id),
    ensures
        laws::sound(cluster_laws::moment(members, events, n).nodes[id]),
        cluster_laws::moment(members, events, n).members == members,
{
    let c = cluster_laws::moment(members, events, n);
    safety::prefix_can_happen(members, events, n);
    safety::ok_throughout(members, events.take(n));
    assert(c.node_ok(id));
}

/// What an event changes of a node can be saved.
proof fn event_can_be_saved(c: Cluster, event: Event, id: u64)
    requires
        c.possible(event),
        laws::sound(c.nodes[id]),
        laws::sound(c.after(event).nodes[id]),
    ensures
        can_follow(c.nodes[id], c.after(event).nodes[id]),
{
    let s = c.nodes[id];
    let t = c.after(event).nodes[id];
    if t.log == s.log && t.log_offset == s.log_offset && t.snapshot == s.snapshot {
        steps_beside_the_log_can_be_saved(s, t);
    } else {
        match event {
            Event::Propose { node: at, command } => {
                appended_command_can_be_saved(s, command);
            },
            Event::Append { node: at, request } => {
                received_entries_can_be_saved(s, request);
            },
            Event::Install { node: at, snapshot } => {
                received_snapshot_can_be_saved(s, snapshot);
            },
            Event::Compact { node: at, jobs, workers } => {
                compaction_can_be_saved(s, jobs, workers);
            },
            _ => {},
        }
    }
}

// ---------------------------------------------------------------------------
// Nodes that save every step
// ---------------------------------------------------------------------------

/// What a node has written after the first `n` events: its first hard state, and after each event
/// what was due.
pub open spec fn saved(
    members: Set<u64>,
    events: Seq<Event>,
    n: int,
    id: u64,
    coding: Coding,
) -> Seq<Write>
    decreases n,
{
    if n <= 0 {
        seq![Write::HardState { term: 0, voted_for: None, log_offset: 0 }]
    } else {
        let s = cluster_laws::moment(members, events, n - 1).nodes[id];
        let t = cluster_laws::moment(members, events, n).nodes[id];
        saved(members, events, n - 1, id, coding) + writes_of(plan(s, t), t, coding)
    }
}

/// A node that writes what is due after every event has its state in its store at every moment
/// of a run.
pub proof fn saving_keeps_up(
    members: Set<u64>,
    events: Seq<Event>,
    n: int,
    id: u64,
    coding: Coding,
)
    requires
        cluster_laws::run(members, events, 0, n),
        members.contains(id),
    ensures
        tells(
            saved(members, events, n, id, coding),
            cluster_laws::moment(members, events, n).nodes[id],
            coding,
        ),
    decreases n,
{
    let writes = saved(members, events, n, id, coding);
    if n == 0 {
        let first = Write::HardState { term: 0, voted_for: None, log_offset: 0 };
        assert(events.take(0).len() == 0);
        one_more_write(Seq::empty(), first);
        assert(writes =~= Seq::<Write>::empty().push(first));
    } else {
        saving_keeps_up(members, events, n - 1, id, coding);
        every_event_can_be_saved(members, events, n - 1, id);
        planned_writes_are_enough(
            saved(members, events, n - 1, id, coding),
            cluster_laws::moment(members, events, n - 1).nodes[id],
            cluster_laws::moment(members, events, n).nodes[id],
            coding,
        );
    }
}

/// A node that writes what is due after every event can crash at any moment of a run: it restarts
/// with its term, its vote and its log, and no committed entry is lost.
pub proof fn crashed_nodes_resume(
    members: Set<u64>,
    events: Seq<Event>,
    n: int,
    id: u64,
    store: Store,
    scanned: Seq<(Seq<u8>, Seq<u8>)>,
    p: PersistedState,
    coding: Coding,
)
    requires
        cluster_laws::run(members, events, 0, n),
        members.contains(id),
        coding.faithful(),
        storage_laws::came_about(saved(members, events, n, id, coding), store),
        loaded(store, scanned, p, coding),
        ({
            let s = cluster_laws::moment(members, events, n).nodes[id];
            storage::parsed_voted_for(storage::voted_for_json(s.voted_for)) == Some(s.voted_for)
        }),
    ensures
        laws::stored(cluster_laws::moment(members, events, n).nodes[id], p),
        cluster_laws::moment(members, events, n).possible(Event::Restart { node: id, stored: p }),
        node::restored_state(p).last_index() >= cluster_laws::moment(
            members,
            events,
            n,
        ).nodes[id].commit_index,
{
    let c = cluster_laws::moment(members, events, n);
    let s = c.nodes[id];
    saving_keeps_up(members, events, n, id, coding);
    nodes_are_sound(members, events, n, id);
    what_is_told_is_stored(
        saved(members, events, n, id, coding),
        store,
        s,
        scanned,
        p,
        coding,
    );
    laws::restart_keeps_state(s, p);
    laws::last_index_counts_all(s);
}

} // verus!
