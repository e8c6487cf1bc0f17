//! What holds of stored state: what is written is read back, and nothing else changes.

use crate::raft::storage;
use crate::raft::storage::{HardState, OpView, StorageError};
use vstd::prelude::*;

verus! {

/// A store: values under keys.
pub type Store = Map<Seq<u8>, Seq<u8>>;

/// The store after a change.
pub open spec fn apply_op(store: Store, op: OpView) -> Store {
    match op {
        OpView::Put { key, value } => store.insert(key, value),
        OpView::Delete { key } => store.remove(key),
    }
}

/// The store after changes, one after the other.
pub open spec fn apply_ops(store: Store, ops: Seq<OpView>) -> Store
    decreases ops.len(),
{
    if ops.len() == 0 {
        store
    } else {
        apply_op(apply_ops(store, ops.drop_last()), ops.last())
    }
}

/// The value under a key.
pub open spec fn lookup(store: Store, key: Seq<u8>) -> Option<Seq<u8>> {
    if store.contains_key(key) {
        Some(store[key])
    } else {
        None
    }
}

/// The hard state that a store holds.
pub open spec fn hard_state_in(store: Store) -> Result<Option<HardState>, StorageError> {
    storage::stored_hard_state(
        lookup(store, storage::term_key()),
        lookup(store, storage::voted_for_key()),
        lookup(store, storage::log_offset_key()),
    )
}

/// One of the four keys that are not log entries.
pub open spec fn is_plain_key(key: Seq<u8>) -> bool {
    ||| key == storage::term_key()
    ||| key == storage::voted_for_key()
    ||| key == storage::log_offset_key()
    ||| key == storage::snapshot_key()
}

/// A store with no keys but those of the layout.
pub open spec fn laid_out(store: Store) -> bool {
    forall|key: Seq<u8>| #[trigger]
        store.contains_key(key) ==> is_plain_key(key) || exists|i: u64|
            key == storage::entry_key(i)
}

/// `keys` are all keys of the store from `start` on, in the order of the store.
pub open spec fn scan_of(keys: Seq<Seq<u8>>, store: Store, start: Seq<u8>) -> bool {
    &&& forall|i: int, j: int|
        0 <= i < j < keys.len() ==> storage::comes_before(#[trigger] keys[i], #[trigger] keys[j])
    &&& forall|i: int|
        0 <= i < keys.len() ==> store.contains_key(#[trigger] keys[i]) && !storage::comes_before(
            keys[i],
            start,
        )
    &&& forall|key: Seq<u8>| #[trigger]
        store.contains_key(key) && !storage::comes_before(key, start) ==> keys.contains(key)
}

/// `pairs` are all keys of the store from `start` on with their values, in the order of the store.
pub open spec fn pair_scan_of(
    pairs: Seq<(Seq<u8>, Seq<u8>)>,
    store: Store,
    start: Seq<u8>,
) -> bool {
    &&& scan_of(pairs.map_values(|p: (Seq<u8>, Seq<u8>)| p.0), store, start)
    &&& forall|i: int| 0 <= i < pairs.len() ==> (#[trigger] pairs[i]).1 == store[pairs[i].0]
}

// ---------------------------------------------------------------------------
// Order of keys
// ---------------------------------------------------------------------------

/// The order of the keys of log entries is the order of their indices.
pub proof fn key_order_is_index_order(a: u64, b: u64)
    ensures
        storage::comes_before(storage::entry_key(a), storage::entry_key(b)) <==> a < b,
        storage::entry_key(a) == storage::entry_key(b) <==> a == b,
{
    storage::be8_round_trip(a);
    storage::be8_round_trip(b);
    order_behind_prefix(storage::log_prefix(), storage::be8(a), storage::be8(b));
    order_is_value_order(storage::be8(a), storage::be8(b));
    if storage::entry_key(a) == storage::entry_key(b) {
        assert(storage::entry_key(a).skip(4) =~= storage::be8(a));
        assert(storage::entry_key(b).skip(4) =~= storage::be8(b));
    }
}

proof fn order_behind_prefix(prefix: Seq<u8>, a: Seq<u8>, b: Seq<u8>)
    ensures
        storage::comes_before(prefix + a, prefix + b) == storage::comes_before(a, b),
    decreases prefix.len(),
{
    if prefix.len() == 0 {
        assert(prefix + a =~= a);
        assert(prefix + b =~= b);
    } else {
        assert((prefix + a).skip(1) =~= prefix.skip(1) + a);
        assert((prefix + b).skip(1) =~= prefix.skip(1) + b);
        order_behind_prefix(prefix.skip(1), a, b);
    }
}

proof fn order_with_last(a: Seq<u8>, b: Seq<u8>, x: u8, y: u8)
    requires
        a.len() == b.len(),
    ensures
        storage::comes_before(a.push(x), b.push(y)) <==> storage::comes_before(a, b) || (a == b
            && x < y),
    decreases a.len(),
{
    reveal_with_fuel(storage::comes_before, 2);
    assert(a.push(x).len() > 0 && b.push(y).len() > 0);
    if a.len() == 0 {
        assert(a =~= b);
        assert(a.push(x)[0] == x && b.push(y)[0] == y);
        assert(a.push(x).skip(1) =~= Seq::<u8>::empty());
        assert(b.push(y).skip(1) =~= Seq::<u8>::empty());
    } else {
        assert(a.push(x)[0] == a[0] && b.push(y)[0] == b[0]);
        assert(a.push(x).skip(1) =~= a.skip(1).push(x));
        assert(b.push(y).skip(1) =~= b.skip(1).push(y));
        order_with_last(a.skip(1), b.skip(1), x, y);
        if a[0] == b[0] && a.skip(1) == b.skip(1) {
            assert(a =~= seq![a[0]] + a.skip(1));
            assert(b =~= seq![b[0]] + b.skip(1));
        }
    }
}

proof fn same_value_same_bytes(a: Seq<u8>, b: Seq<u8>)
    requires
        a.len() == b.len(),
        storage::be_value(a) == storage::be_value(b),
    ensures
        a == b,
    decreases a.len(),
{
    if a.len() > 0 {
        same_value_same_bytes(a.drop_last(), b.drop_last());
        assert(a =~= a.drop_last().push(a.last()));
        assert(b =~= b.drop_last().push(b.last()));
    } else {
        assert(a =~= b);
    }
}

proof fn order_is_value_order(a: Seq<u8>, b: Seq<u8>)
    requires
        a.len() == b.len(),
    ensures
        storage::comes_before(a, b) <==> storage::be_value(a) < storage::be_value(b),
    decreases a.len(),
{
    if a.len() > 0 {
        let p = a.drop_last();
        let q = b.drop_last();
        order_is_value_order(p, q);
        order_with_last(p, q, a.last(), b.last());
        assert(a =~= p.push(a.last()));
        assert(b =~= q.push(b.last()));
        if storage::be_value(p) == storage::be_value(q) {
            same_value_same_bytes(p, q);
        }
    }
}

/// The keys of log entries come before all other keys and are none of them.
proof fn log_keys_come_first(key: Seq<u8>, index: u64)
    requires
        is_plain_key(key),
    ensures
        !storage::comes_before(key, storage::entry_key(index)),
        !storage::is_log_key(key),
        key != storage::entry_key(index),
        storage::is_log_key(storage::entry_key(index)),
{
    let e = storage::entry_key(index);
    assert(e[0] == 108 && e[1] == 111 && e[2] == 103 && e[3] == 0);
    assert(e.subrange(0, 4) =~= storage::log_prefix());
    if key == storage::log_offset_key() {
        assert(key[0] == 108 && key[1] == 111 && key[2] == 103 && key[3] == 95);
        reveal_with_fuel(storage::comes_before, 5);
        assert(key.subrange(0, 4)[3] == 95);
    } else {
        assert(key[0] != 108);
        assert(key.subrange(0, 4)[0] == key[0]);
    }
}

// ---------------------------------------------------------------------------
// Hard state
// ---------------------------------------------------------------------------

/// The hard state that was stored is read back, whatever the store held before.
pub proof fn hard_state_is_read_back(
    store: Store,
    term: u64,
    voted_for: Option<u64>,
    log_offset: u64,
)
    requires
        storage::parsed_voted_for(storage::voted_for_json(voted_for)) == Some(voted_for),
    ensures
        hard_state_in(
            apply_ops(store, storage::hard_state_ops(term, voted_for, log_offset)),
        ) == Ok::<Option<HardState>, StorageError>(
            Some(HardState { current_term: term, voted_for, log_offset }),
        ),
{
    let ops = storage::hard_state_ops(term, voted_for, log_offset);
    reveal_with_fuel(apply_ops, 4);
    assert(ops.drop_last() =~= seq![ops[0], ops[1]]);
    assert(ops.drop_last().drop_last() =~= seq![ops[0]]);
    assert(ops.drop_last().drop_last().drop_last() =~= Seq::<OpView>::empty());
    assert(storage::term_key().len() == 4);
    assert(storage::voted_for_key().len() == 9);
    assert(storage::log_offset_key().len() == 10);
    storage::be8_round_trip(term);
    storage::be8_round_trip(log_offset);
}

/// A store without a term is fresh.
pub proof fn empty_store_is_fresh()
    ensures
        hard_state_in(Map::empty()) == Ok::<Option<HardState>, StorageError>(None),
{
}

// ---------------------------------------------------------------------------
// Deleting entries
// ---------------------------------------------------------------------------

/// The store after keys were deleted.
proof fn after_deletes(store: Store, keys: Seq<Seq<u8>>)
    ensures
        forall|key: Seq<u8>| #[trigger]
            apply_ops(store, storage::deletes(keys)).contains_key(key) <==> store.contains_key(key)
                && !keys.contains(key),
        forall|key: Seq<u8>| #[trigger]
            apply_ops(store, storage::deletes(keys)).contains_key(key) ==> apply_ops(
                store,
                storage::deletes(keys),
            )[key] == store[key],
    decreases keys.len(),
{
    let ops = storage::deletes(keys);
    if keys.len() > 0 {
        let front = keys.drop_last();
        after_deletes(store, front);
        assert(ops.drop_last() =~= storage::deletes(front));
        assert(ops.last() == OpView::Delete { key: keys.last() });
        assert(apply_ops(store, ops) == apply_ops(store, storage::deletes(front)).remove(
            keys.last(),
        ));
        assert(keys =~= front.push(keys.last()));
        crate::lemmas::push_contains(front, keys.last());
    }
}

/// The run of log keys that a scan starts with holds all log keys of the scan.
proof fn run_holds_all(keys: Seq<Seq<u8>>, store: Store, start: Seq<u8>)
    requires
        laid_out(store),
        forall|i: int, j: int|
            0 <= i < j < keys.len() ==> storage::comes_before(
                #[trigger] keys[i],
                #[trigger] keys[j],
            ),
        forall|i: int| 0 <= i < keys.len() ==> store.contains_key(#[trigger] keys[i]),
    ensures
        forall|key: Seq<u8>| #[trigger]
            storage::leading_log_keys(keys).contains(key) <==> keys.contains(key)
                && storage::is_log_key(key),
    decreases keys.len(),
{
    let run = storage::leading_log_keys(keys);
    if keys.len() == 0 {
    } else if !storage::is_log_key(keys[0]) {
        assert forall|key: Seq<u8>| keys.contains(key) && storage::is_log_key(key) implies false by {
            let k = choose|k: int| 0 <= k < keys.len() && keys[k] == key;
            assert(store.contains_key(keys[0]));
            assert(store.contains_key(keys[k]));
            entry_or_plain(store, keys[0]);
            entry_or_plain(store, keys[k]);
            let i = choose|i: u64| keys[k] == storage::entry_key(i);
            assert(storage::comes_before(keys[0], keys[k]));
            log_keys_come_first(keys[0], i);
        }
    } else {
        let rest = keys.skip(1);
        assert forall|i: int, j: int| 0 <= i < j < rest.len() implies storage::comes_before(
            #[trigger] rest[i],
            #[trigger] rest[j],
        ) by {
            assert(rest[i] == keys[i + 1]);
            assert(rest[j] == keys[j + 1]);
        }
        assert forall|i: int| 0 <= i < rest.len() implies store.contains_key(#[trigger] rest[i]) by {
            assert(rest[i] == keys[i + 1]);
        }
        run_holds_all(rest, store, start);
        let tail = storage::leading_log_keys(rest);
        assert(run =~= seq![keys[0]] + tail);
        assert forall|key: Seq<u8>| #[trigger] run.contains(key) <==> keys.contains(key)
            && storage::is_log_key(key) by {
            head_contains(keys, key);
            head_contains(run, key);
            assert(run.skip(1) =~= tail);
        }
    }
}

/// A sequence holds its head and what its tail holds.
proof fn head_contains(s: Seq<Seq<u8>>, x: Seq<u8>)
    requires
        s.len() > 0,
    ensures
        s.contains(x) <==> s[0] == x || s.skip(1).contains(x),
{
    if s.contains(x) && s[0] != x {
        let k = choose|k: int| 0 <= k < s.len() && s[k] == x;
        assert(s.skip(1)[k - 1] == x);
    }
    if s.skip(1).contains(x) {
        let t = s.skip(1);
        let k = choose|k: int| 0 <= k < t.len() && t[k] == x;
        assert(s[k + 1] == x);
    }
}

/// In a store of the layout a key is a log key or a plain one, not both.
proof fn entry_or_plain(store: Store, key: Seq<u8>)
    requires
        laid_out(store),
        store.contains_key(key),
    ensures
        storage::is_log_key(key) <==> exists|i: u64| key == storage::entry_key(i),
        storage::is_log_key(key) <==> !is_plain_key(key),
{
    if is_plain_key(key) {
        log_keys_come_first(key, 0);
        assert forall|i: u64| key != storage::entry_key(i) by {
            log_keys_come_first(key, i);
        }
    } else {
        let i = choose|i: u64| key == storage::entry_key(i);
        log_keys_come_first(storage::term_key(), i);
    }
}

/// Truncating from an index deletes exactly the log entries from that index on. All other values
/// stay.
pub proof fn truncation_deletes_from_index(store: Store, from: u64, scanned: Seq<Seq<u8>>)
    requires
        laid_out(store),
        scan_of(scanned, store, storage::entry_key(from)),
    ensures
        ({
            let after = apply_ops(store, storage::deletes(storage::leading_log_keys(scanned)));
            &&& forall|i: u64|
                after.contains_key(#[trigger] storage::entry_key(i)) <==> store.contains_key(
                    storage::entry_key(i),
                ) && i < from
            &&& forall|key: Seq<u8>| is_plain_key(key) ==> (#[trigger] after.contains_key(key)
                <==> store.contains_key(key))
            &&& forall|key: Seq<u8>| #[trigger]
                after.contains_key(key) ==> after[key] == store[key]
        }),
{
    let run = storage::leading_log_keys(scanned);
    after_deletes(store, run);
    run_holds_all(scanned, store, storage::entry_key(from));
    let after = apply_ops(store, storage::deletes(run));
    assert forall|i: u64|
        after.contains_key(#[trigger] storage::entry_key(i)) <==> store.contains_key(
            storage::entry_key(i),
        ) && i < from by {
        let key = storage::entry_key(i);
        key_order_is_index_order(i, from);
        log_keys_come_first(storage::term_key(), i);
        if scanned.contains(key) {
            let k = choose|k: int| 0 <= k < scanned.len() && scanned[k] == key;
            assert(!storage::comes_before(scanned[k], storage::entry_key(from)));
        }
    }
    assert forall|key: Seq<u8>| is_plain_key(key) implies (#[trigger] after.contains_key(key)
        <==> store.contains_key(key)) by {
        log_keys_come_first(key, 0);
    }
}

/// Changes one after the other.
proof fn apply_in_two_steps(store: Store, first: Seq<OpView>, second: Seq<OpView>)
    ensures
        apply_ops(store, first + second) == apply_ops(apply_ops(store, first), second),
    decreases second.len(),
{
    if second.len() == 0 {
        assert(first + second =~= first);
    } else {
        let all = first + second;
        assert(all.drop_last() =~= first + second.drop_last());
        assert(all.last() == second.last());
        apply_in_two_steps(store, first, second.drop_last());
    }
}

/// The run of log keys before an index that a scan starts with holds all such keys of the scan.
proof fn run_before_holds_all(keys: Seq<Seq<u8>>, store: Store, end: u64)
    requires
        laid_out(store),
        forall|i: int, j: int|
            0 <= i < j < keys.len() ==> storage::comes_before(
                #[trigger] keys[i],
                #[trigger] keys[j],
            ),
        forall|i: int| 0 <= i < keys.len() ==> store.contains_key(#[trigger] keys[i]),
    ensures
        forall|key: Seq<u8>| #[trigger]
            storage::leading_log_keys_before(keys, storage::entry_key(end)).contains(key)
                <==> keys.contains(key) && storage::is_log_key(key) && storage::comes_before(
                key,
                storage::entry_key(end),
            ),
    decreases keys.len(),
{
    let bound = storage::entry_key(end);
    let run = storage::leading_log_keys_before(keys, bound);
    if keys.len() == 0 {
    } else if !storage::is_log_key(keys[0]) || !storage::comes_before(keys[0], bound) {
        assert forall|key: Seq<u8>|
            keys.contains(key) && storage::is_log_key(key) && storage::comes_before(
                key,
                bound,
            ) implies false by {
            let k = choose|k: int| 0 <= k < keys.len() && keys[k] == key;
            assert(store.contains_key(keys[0]));
            assert(store.contains_key(keys[k]));
            entry_or_plain(store, keys[0]);
            entry_or_plain(store, keys[k]);
            let j = choose|j: u64| keys[k] == storage::entry_key(j);
            if k > 0 {
                assert(storage::comes_before(keys[0], keys[k]));
            }
            if storage::is_log_key(keys[0]) {
                let i = choose|i: u64| keys[0] == storage::entry_key(i);
                key_order_is_index_order(i, j);
                key_order_is_index_order(i, end);
                key_order_is_index_order(j, end);
            } else {
                log_keys_come_first(keys[0], j);
            }
        }
    } else {
        let rest = keys.skip(1);
        assert forall|i: int, j: int| 0 <= i < j < rest.len() implies storage::comes_before(
            #[trigger] rest[i],
            #[trigger] rest[j],
        ) by {
            assert(rest[i] == keys[i + 1]);
            assert(rest[j] == keys[j + 1]);
        }
        assert forall|i: int| 0 <= i < rest.len() implies store.contains_key(#[trigger] rest[i]) by {
            assert(rest[i] == keys[i + 1]);
        }
        run_before_holds_all(rest, store, end);
        let tail = storage::leading_log_keys_before(rest, bound);
        assert(run =~= seq![keys[0]] + tail);
        assert forall|key: Seq<u8>| #[trigger] run.contains(key) <==> keys.contains(key)
            && storage::is_log_key(key) && storage::comes_before(key, bound) by {
            head_contains(keys, key);
            head_contains(run, key);
            assert(run.skip(1) =~= tail);
        }
    }
}

/// Storing a snapshot stores it with its offset and deletes exactly the log entries it stands
/// for, those from 1 up to the offset. Everything else stays.
pub proof fn snapshot_replaces_compacted_entries(
    store: Store,
    value: Seq<u8>,
    log_offset: u64,
    scanned: Seq<Seq<u8>>,
)
    requires
        laid_out(store),
        log_offset < u64::MAX,
        scan_of(scanned, store, storage::entry_key(1)),
    ensures
        ({
            let after = apply_ops(store, storage::snapshot_ops(value, log_offset, scanned));
            &&& lookup(after, storage::snapshot_key()) == Some(value)
            &&& lookup(after, storage::log_offset_key()) == Some(storage::be8(log_offset))
            &&& lookup(after, storage::term_key()) == lookup(store, storage::term_key())
            &&& lookup(after, storage::voted_for_key()) == lookup(store, storage::voted_for_key())
            &&& forall|i: u64|
                lookup(after, #[trigger] storage::entry_key(i)) == (if 1 <= i <= log_offset {
                    None
                } else {
                    lookup(store, storage::entry_key(i))
                })
        }),
{
    let puts = seq![
        OpView::Put { key: storage::snapshot_key(), value },
        OpView::Put { key: storage::log_offset_key(), value: storage::be8(log_offset) },
    ];
    let end = (log_offset + 1) as u64;
    let run = storage::leading_log_keys_before(scanned, storage::entry_key(end));
    let put = apply_ops(store, puts);
    reveal_with_fuel(apply_ops, 3);
    assert(puts.drop_last() =~= seq![puts[0]]);
    assert(puts.drop_last().drop_last() =~= Seq::<OpView>::empty());
    assert(put == store.insert(storage::snapshot_key(), value).insert(
        storage::log_offset_key(),
        storage::be8(log_offset),
    ));
    assert(storage::snapshot_key().len() == 8);
    assert(storage::log_offset_key().len() == 10);
    assert(storage::term_key().len() == 4);
    assert(storage::voted_for_key().len() == 9);
    let after = apply_ops(store, storage::snapshot_ops(value, log_offset, scanned));
    run_before_holds_all(scanned, store, end);
    after_deletes(put, run);
    if log_offset > 0 {
        apply_in_two_steps(store, puts, storage::deletes(run));
        log_keys_come_first(storage::snapshot_key(), 0);
        log_keys_come_first(storage::log_offset_key(), 0);
        log_keys_come_first(storage::term_key(), 0);
        log_keys_come_first(storage::voted_for_key(), 0);
    }
    assert forall|i: u64|
        lookup(after, #[trigger] storage::entry_key(i)) == (if 1 <= i <= log_offset {
            None
        } else {
            lookup(store, storage::entry_key(i))
        }) by {
        let key = storage::entry_key(i);
        log_keys_come_first(storage::snapshot_key(), i);
        log_keys_come_first(storage::log_offset_key(), i);
        key_order_is_index_order(i, end);
        key_order_is_index_order(i, 1);
        assert(put.contains_key(key) <==> store.contains_key(key));
        if log_offset > 0 {
            if scanned.contains(key) {
                let k = choose|k: int| 0 <= k < scanned.len() && scanned[k] == key;
                assert(!storage::comes_before(scanned[k], storage::entry_key(1)));
            }
            assert(after.contains_key(key) <==> put.contains_key(key) && !run.contains(key));
        }
    }
}

// ---------------------------------------------------------------------------
// Reading the log back
// ---------------------------------------------------------------------------

/// The indices rise.
pub open spec fn rising(indices: Seq<u64>) -> bool {
    forall|i: int, j: int| 0 <= i < j < indices.len() ==> #[trigger] indices[i] < #[trigger] indices[j]
}

/// The run of log keys that a scan starts with, and their values, stand at its start.
proof fn run_is_a_start(scanned: Seq<(Seq<u8>, Seq<u8>)>, keys: Seq<Seq<u8>>)
    requires
        keys == scanned.map_values(|p: (Seq<u8>, Seq<u8>)| p.0),
    ensures
        storage::leading_log_keys(keys).len() <= keys.len(),
        storage::leading_log_values(scanned).len() == storage::leading_log_keys(keys).len(),
        forall|i: int|
            0 <= i < storage::leading_log_keys(keys).len() ==> #[trigger] storage::leading_log_keys(
                keys,
            )[i] == keys[i] && storage::is_log_key(keys[i]),
        forall|i: int|
            0 <= i < storage::leading_log_values(scanned).len()
                ==> #[trigger] storage::leading_log_values(scanned)[i] == scanned[i].1,
    decreases scanned.len(),
{
    if scanned.len() > 0 {
        assert(keys[0] == scanned[0].0);
        let rest = scanned.skip(1);
        let rest_keys = keys.skip(1);
        assert(rest_keys =~= rest.map_values(|p: (Seq<u8>, Seq<u8>)| p.0));
        run_is_a_start(rest, rest_keys);
        if storage::is_log_key(keys[0]) {
            let run = storage::leading_log_keys(keys);
            let values = storage::leading_log_values(scanned);
            assert forall|i: int| 0 <= i < run.len() implies #[trigger] run[i] == keys[i]
                && storage::is_log_key(keys[i]) by {
                if i > 0 {
                    assert(run[i] == storage::leading_log_keys(rest_keys)[i - 1]);
                    assert(rest_keys[i - 1] == keys[i]);
                }
            }
            assert forall|i: int| 0 <= i < values.len() implies #[trigger] values[i]
                == scanned[i].1 by {
                if i > 0 {
                    assert(values[i] == storage::leading_log_values(rest)[i - 1]);
                    assert(rest[i - 1] == scanned[i]);
                }
            }
        }
    }
}

/// Stored log entries past an offset are read back in order of their index, all of them and
/// nothing else.
pub proof fn log_is_read_back(
    store: Store,
    offset: u64,
    scanned: Seq<(Seq<u8>, Seq<u8>)>,
) -> (indices: Seq<u64>)
    requires
        laid_out(store),
        offset < u64::MAX,
        pair_scan_of(scanned, store, storage::entry_key((offset + 1) as u64)),
    ensures
        rising(indices),
        forall|i: u64| #[trigger]
            indices.contains(i) <==> i > offset && store.contains_key(storage::entry_key(i)),
        storage::leading_log_values(scanned) == indices.map_values(
            |i: u64| store[storage::entry_key(i)],
        ),
{
    let keys = scanned.map_values(|p: (Seq<u8>, Seq<u8>)| p.0);
    let start = (offset + 1) as u64;
    let run = storage::leading_log_keys(keys);
    run_is_a_start(scanned, keys);
    run_holds_all(keys, store, storage::entry_key(start));
    let indices = Seq::new(run.len(), |k: int| choose|i: u64| run[k] == storage::entry_key(i));
    assert forall|k: int| 0 <= k < indices.len() implies run[k] == storage::entry_key(
        #[trigger] indices[k],
    ) && indices[k] > offset && store.contains_key(run[k]) by {
        assert(run[k] == keys[k]);
        entry_or_plain(store, keys[k]);
        let i = choose|i: u64| run[k] == storage::entry_key(i);
        key_order_is_index_order(i, start);
    }
    assert forall|i: int, j: int| 0 <= i < j < indices.len() implies #[trigger] indices[i]
        < #[trigger] indices[j] by {
        assert(storage::comes_before(keys[i], keys[j]));
        assert(run[i] == keys[i] && run[j] == keys[j]);
        key_order_is_index_order(indices[i], indices[j]);
    }
    assert forall|i: u64| #[trigger] indices.contains(i) <==> i > offset && store.contains_key(
        storage::entry_key(i),
    ) by {
        let key = storage::entry_key(i);
        if indices.contains(i) {
            let k = choose|k: int| 0 <= k < indices.len() && indices[k] == i;
            assert(run[k] == key);
        }
        if i > offset && store.contains_key(key) {
            key_order_is_index_order(i, start);
            log_keys_come_first(storage::term_key(), i);
            assert(keys.contains(key));
            assert(run.contains(key));
            let k = choose|k: int| 0 <= k < run.len() && run[k] == key;
            key_order_is_index_order(indices[k], i);
            assert(indices[k] == i);
        }
    }
    assert(storage::leading_log_values(scanned) =~= indices.map_values(
        |i: u64| store[storage::entry_key(i)],
    )) by {
        assert forall|k: int| 0 <= k < indices.len() implies #[trigger] storage::leading_log_values(
            scanned,
        )[k] == store[storage::entry_key(indices[k])] by {
            assert(scanned[k].0 == keys[k]);
            assert(run[k] == keys[k]);
        }
    }
    indices
}

// ---------------------------------------------------------------------------
// Histories of writes
// ---------------------------------------------------------------------------

/// Something that is written to a store.
pub enum Write {
    HardState { term: u64, voted_for: Option<u64>, log_offset: u64 },
    Entry { index: u64, value: Seq<u8> },
    Truncate { from: u64 },
    Snapshot { data: Seq<u8>, last: u64 },
}

/// `after` is the store after something was written to `before`.
pub open spec fn written(before: Store, write: Write, after: Store) -> bool {
    match write {
        Write::HardState { term, voted_for, log_offset } => after == apply_ops(
            before,
            storage::hard_state_ops(term, voted_for, log_offset),
        ),
        Write::Entry { index, value } => after == apply_op(
            before,
            OpView::Put { key: storage::entry_key(index), value },
        ),
        Write::Truncate { from } => exists|scanned: Seq<Seq<u8>>|
            #![trigger scan_of(scanned, before, storage::entry_key(from))]
            scan_of(scanned, before, storage::entry_key(from)) && after == apply_ops(
                before,
                storage::deletes(storage::leading_log_keys(scanned)),
            ),
        Write::Snapshot { data, last } => last < u64::MAX && exists|scanned: Seq<Seq<u8>>|
            #![trigger scan_of(scanned, before, storage::entry_key(1))]
            scan_of(scanned, before, storage::entry_key(1)) && after == apply_ops(
                before,
                storage::snapshot_ops(data, last, scanned),
            ),
    }
}

/// The store came about by these writes, one after the other, from an empty one.
pub open spec fn came_about(writes: Seq<Write>, store: Store) -> bool
    decreases writes.len(),
{
    if writes.len() == 0 {
        store == Map::<Seq<u8>, Seq<u8>>::empty()
    } else {
        exists|before: Store|
            #![trigger written(before, writes.last(), store)]
            came_about(writes.drop_last(), before) && written(before, writes.last(), store)
    }
}

/// The term and the vote that were saved last; none where no hard state was saved.
pub open spec fn last_hard_state(writes: Seq<Write>) -> Option<(u64, Option<u64>)>
    decreases writes.len(),
{
    if writes.len() == 0 {
        None
    } else {
        match writes.last() {
            Write::HardState { term, voted_for, log_offset } => Some((term, voted_for)),
            _ => last_hard_state(writes.drop_last()),
        }
    }
}

/// The offset that was saved last, with a hard state or a snapshot.
pub open spec fn last_offset(writes: Seq<Write>) -> Option<u64>
    decreases writes.len(),
{
    if writes.len() == 0 {
        None
    } else {
        match writes.last() {
            Write::HardState { term, voted_for, log_offset } => Some(log_offset),
            Write::Snapshot { data, last } => Some(last),
            _ => last_offset(writes.drop_last()),
        }
    }
}

/// The snapshot that was saved last.
pub open spec fn last_snapshot(writes: Seq<Write>) -> Option<Seq<u8>>
    decreases writes.len(),
{
    if writes.len() == 0 {
        None
    } else {
        match writes.last() {
            Write::Snapshot { data, last } => Some(data),
            _ => last_snapshot(writes.drop_last()),
        }
    }
}

/// The log entries that are stored: those that were saved and neither truncated nor compacted
/// since.
pub open spec fn stored_entries(writes: Seq<Write>) -> Map<u64, Seq<u8>>
    decreases writes.len(),
{
    if writes.len() == 0 {
        Map::empty()
    } else {
        let front = stored_entries(writes.drop_last());
        match writes.last() {
            Write::HardState { term, voted_for, log_offset } => front,
            Write::Entry { index, value } => front.insert(index, value),
            Write::Truncate { from } => front.restrict(Set::new(|i: u64| i < from)),
            Write::Snapshot { data, last } => front.restrict(
                Set::new(|i: u64| !(1 <= i <= last)),
            ),
        }
    }
}

/// The store holds what was written last.
pub open spec fn holds_history(store: Store, writes: Seq<Write>) -> bool {
    &&& laid_out(store)
    &&& lookup(store, storage::term_key()) == (match last_hard_state(writes) {
        Some(hard) => Some(storage::be8(hard.0)),
        None => None,
    })
    &&& lookup(store, storage::voted_for_key()) == (match last_hard_state(writes) {
        Some(hard) => Some(storage::voted_for_json(hard.1)),
        None => None,
    })
    &&& lookup(store, storage::log_offset_key()) == (match last_offset(writes) {
        Some(offset) => Some(storage::be8(offset)),
        None => None,
    })
    &&& lookup(store, storage::snapshot_key()) == last_snapshot(writes)
    &&& forall|i: u64|
        lookup(store, #[trigger] storage::entry_key(i)) == (if stored_entries(
            writes,
        ).contains_key(i) {
            Some(stored_entries(writes)[i])
        } else {
            None
        })
}

/// The plain keys differ from each other.
proof fn plain_keys_differ()
    ensures
        storage::term_key().len() == 4,
        storage::voted_for_key().len() == 9,
        storage::log_offset_key().len() == 10,
        storage::snapshot_key().len() == 8,
{
}

/// A hard state is written over the one before, and nothing else changes.
proof fn hard_state_is_written(store: Store, term: u64, voted_for: Option<u64>, log_offset: u64)
    requires
        laid_out(store),
    ensures
        ({
            let after = apply_ops(store, storage::hard_state_ops(term, voted_for, log_offset));
            &&& laid_out(after)
            &&& after == store.insert(storage::term_key(), storage::be8(term)).insert(
                storage::voted_for_key(),
                storage::voted_for_json(voted_for),
            ).insert(storage::log_offset_key(), storage::be8(log_offset))
        }),
{
    let ops = storage::hard_state_ops(term, voted_for, log_offset);
    reveal_with_fuel(apply_ops, 4);
    assert(ops.drop_last() =~= seq![ops[0], ops[1]]);
    assert(ops.drop_last().drop_last() =~= seq![ops[0]]);
    assert(ops.drop_last().drop_last().drop_last() =~= Seq::<OpView>::empty());
}

/// Deleting keys keeps the layout.
proof fn deletes_keep_layout(store: Store, keys: Seq<Seq<u8>>)
    requires
        laid_out(store),
    ensures
        laid_out(apply_ops(store, storage::deletes(keys))),
{
    after_deletes(store, keys);
}

/// Saving a snapshot keeps the layout.
proof fn snapshot_keeps_layout(store: Store, value: Seq<u8>, log_offset: u64, scanned: Seq<Seq<u8>>)
    requires
        laid_out(store),
    ensures
        laid_out(apply_ops(store, storage::snapshot_ops(value, log_offset, scanned))),
{
    let puts = seq![
        OpView::Put { key: storage::snapshot_key(), value },
        OpView::Put { key: storage::log_offset_key(), value: storage::be8(log_offset) },
    ];
    let put = apply_ops(store, puts);
    reveal_with_fuel(apply_ops, 3);
    assert(puts.drop_last() =~= seq![puts[0]]);
    assert(puts.drop_last().drop_last() =~= Seq::<OpView>::empty());
    assert(laid_out(put));
    if log_offset > 0 {
        let run = storage::leading_log_keys_before(
            scanned,
            storage::entry_key((log_offset + 1) as u64),
        );
        apply_in_two_steps(store, puts, storage::deletes(run));
        deletes_keep_layout(put, run);
    }
}

/// Whatever was written to a store, it holds the last hard state, the last offset, the last
/// snapshot, and the log entries that were saved and not deleted since.
pub proof fn store_holds_what_was_written(writes: Seq<Write>, store: Store)
    requires
        came_about(writes, store),
    ensures
        holds_history(store, writes),
    decreases writes.len(),
{
    if writes.len() > 0 {
        let front = writes.drop_last();
        let before = choose|before: Store|
            #![trigger written(before, writes.last(), store)]
            came_about(front, before) && written(before, writes.last(), store);
        store_holds_what_was_written(front, before);
        write_is_held(front, writes, before, store);
    }
}

/// One more write keeps the store and the history in step.
proof fn write_is_held(front: Seq<Write>, writes: Seq<Write>, before: Store, store: Store)
    requires
        writes.len() > 0,
        front == writes.drop_last(),
        holds_history(before, front),
        written(before, writes.last(), store),
    ensures
        holds_history(store, writes),
{
    plain_keys_differ();
    match writes.last() {
        Write::HardState { term, voted_for, log_offset } => {
            hard_state_is_written(before, term, voted_for, log_offset);
            assert forall|i: u64|
                lookup(store, #[trigger] storage::entry_key(i)) == lookup(
                    before,
                    storage::entry_key(i),
                ) by {
                log_keys_come_first(storage::term_key(), i);
                log_keys_come_first(storage::voted_for_key(), i);
                log_keys_come_first(storage::log_offset_key(), i);
            }
        },
        Write::Entry { index, value } => {
            log_keys_come_first(storage::term_key(), index);
            log_keys_come_first(storage::voted_for_key(), index);
            log_keys_come_first(storage::log_offset_key(), index);
            log_keys_come_first(storage::snapshot_key(), index);
            assert forall|i: u64|
                lookup(store, #[trigger] storage::entry_key(i)) == (if i == index {
                    Some(value)
                } else {
                    lookup(before, storage::entry_key(i))
                }) by {
                key_order_is_index_order(i, index);
            }
        },
        Write::Truncate { from } => {
            let scanned = choose|scanned: Seq<Seq<u8>>|
                #![trigger scan_of(scanned, before, storage::entry_key(from))]
                scan_of(scanned, before, storage::entry_key(from)) && store == apply_ops(
                    before,
                    storage::deletes(storage::leading_log_keys(scanned)),
                );
            truncation_deletes_from_index(before, from, scanned);
            deletes_keep_layout(before, storage::leading_log_keys(scanned));
            assert(is_plain_key(storage::term_key()));
            assert(is_plain_key(storage::voted_for_key()));
            assert(is_plain_key(storage::log_offset_key()));
            assert(is_plain_key(storage::snapshot_key()));
        },
        Write::Snapshot { data, last } => {
            let scanned = choose|scanned: Seq<Seq<u8>>|
                #![trigger scan_of(scanned, before, storage::entry_key(1))]
                scan_of(scanned, before, storage::entry_key(1)) && store == apply_ops(
                    before,
                    storage::snapshot_ops(data, last, scanned),
                );
            snapshot_replaces_compacted_entries(before, data, last, scanned);
            snapshot_keeps_layout(before, data, last, scanned);
        },
    }
}

/// No term is known to have been saved exactly where no hard state was written.
proof fn no_hard_state(writes: Seq<Write>)
    ensures
        last_hard_state(writes) is None <==> forall|i: int|
            0 <= i < writes.len() ==> !((#[trigger] writes[i]) is HardState),
        last_hard_state(writes) is Some ==> last_offset(writes) is Some,
    decreases writes.len(),
{
    if writes.len() > 0 {
        let front = writes.drop_last();
        no_hard_state(front);
        if last_hard_state(writes) is None {
            assert forall|i: int| 0 <= i < writes.len() implies !((#[trigger] writes[i])
                is HardState) by {
                if i < front.len() {
                    assert(front[i] == writes[i]);
                }
            }
        } else if !(writes.last() is HardState) {
            let i = choose|i: int| 0 <= i < front.len() && (#[trigger] front[i]) is HardState;
            assert(writes[i] is HardState);
        } else {
            assert(writes[writes.len() - 1] is HardState);
        }
    }
}

/// What was written is loaded, whatever the history of writes: nothing if and only if no hard
/// state was ever saved; else the term and the vote that were saved last, and the offset that was
/// saved last with a hard state or a snapshot.
pub proof fn history_of_hard_states_is_loaded(writes: Seq<Write>, store: Store)
    requires
        came_about(writes, store),
        last_hard_state(writes) matches Some(hard) ==> storage::parsed_voted_for(
            storage::voted_for_json(hard.1),
        ) == Some(hard.1),
    ensures
        hard_state_in(store) == Ok::<Option<HardState>, StorageError>(None) <==> forall|i: int|
            0 <= i < writes.len() ==> !((#[trigger] writes[i]) is HardState),
        last_hard_state(writes) matches Some(hard) ==> last_offset(writes) is Some && hard_state_in(
            store,
        ) == Ok::<Option<HardState>, StorageError>(
            Some(
                HardState {
                    current_term: hard.0,
                    voted_for: hard.1,
                    log_offset: last_offset(writes)->0,
                },
            ),
        ),
{
    store_holds_what_was_written(writes, store);
    no_hard_state(writes);
    match last_hard_state(writes) {
        Some(hard) => {
            storage::be8_round_trip(hard.0);
            storage::be8_round_trip(last_offset(writes)->0);
        },
        None => {},
    }
}

/// What was written is loaded, whatever the history of writes: of the log, the stored entries past
/// the offset in order of their index, all of them and nothing else.
pub proof fn history_of_entries_is_loaded(
    writes: Seq<Write>,
    store: Store,
    scanned: Seq<(Seq<u8>, Seq<u8>)>,
) -> (indices: Seq<u64>)
    requires
        came_about(writes, store),
        last_offset(writes) is Some,
        last_offset(writes)->0 < u64::MAX,
        pair_scan_of(scanned, store, storage::entry_key((last_offset(writes)->0 + 1) as u64)),
    ensures
        rising(indices),
        forall|i: u64| #[trigger]
            indices.contains(i) <==> i > last_offset(writes)->0 && stored_entries(
                writes,
            ).contains_key(i),
        storage::leading_log_values(scanned) == indices.map_values(
            |i: u64| stored_entries(writes)[i],
        ),
{
    store_holds_what_was_written(writes, store);
    let offset = last_offset(writes)->0;
    let indices = log_is_read_back(store, offset, scanned);
    assert forall|i: u64| #[trigger] indices.contains(i) <==> i > offset && stored_entries(
        writes,
    ).contains_key(i) by {
        assert(lookup(store, storage::entry_key(i)) == (if stored_entries(writes).contains_key(i) {
            Some(stored_entries(writes)[i])
        } else {
            None
        }));
    }
    assert(storage::leading_log_values(scanned) =~= indices.map_values(
        |i: u64| stored_entries(writes)[i],
    )) by {
        assert forall|k: int| 0 <= k < indices.len() implies store[storage::entry_key(
            #[trigger] indices[k],
        )] == stored_entries(writes)[indices[k]] by {
            assert(indices.contains(indices[k]));
            assert(lookup(store, storage::entry_key(indices[k])) == Some(
                stored_entries(writes)[indices[k]],
            ));
        }
    }
    indices
}

} // verus!
