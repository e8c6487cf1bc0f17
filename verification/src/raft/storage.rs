//! How the durable state of a node is laid out in a key-value store.
//!
//! | Key                                      | Value                    |
//! |------------------------------------------|--------------------------|
//! | `term`                                   | big-endian number        |
//! | `voted_for`                              | JSON, a number or `null` |
//! | `log_offset`                             | big-endian number        |
//! | `snapshot`                               | snapshot                 |
//! | `log`, a zero byte, big-endian index     | log entry                |
//!
//! With big-endian indices the order of the keys is the order of the entries.

use crate::raft::saving_laws;
use crate::raft::saving_laws::Coding;
use crate::raft::state;
use crate::raft::state::{EntryView, LogEntry, RaftState, Snapshot, StateView};
use crate::raft::storage_laws::Write;
use crate::text;
use vstd::prelude::*;

verus! {

// ---------------------------------------------------------------------------
// Numbers
// ---------------------------------------------------------------------------

/// The `len` lowest bytes of a number, most significant first.
pub open spec fn be_bytes(n: nat, len: nat) -> Seq<u8>
    decreases len,
{
    if len == 0 {
        Seq::empty()
    } else {
        be_bytes(n / 256, (len - 1) as nat).push((n % 256) as u8)
    }
}

/// The number that bytes stand for, most significant first.
pub open spec fn be_value(bytes: Seq<u8>) -> nat
    decreases bytes.len(),
{
    if bytes.len() == 0 {
        0
    } else {
        be_value(bytes.drop_last()) * 256 + bytes.last() as nat
    }
}

/// The eight bytes of a number.
pub open spec fn be8(n: u64) -> Seq<u8> {
    be_bytes(n as nat, 8)
}

proof fn be_bytes_len(n: nat, len: nat)
    ensures
        be_bytes(n, len).len() == len,
    decreases len,
{
    if len > 0 {
        be_bytes_len(n / 256, (len - 1) as nat);
    }
}

/// A number is read back from its eight bytes.
pub proof fn be8_round_trip(n: u64)
    ensures
        be8(n).len() == 8,
        be_value(be8(n)) == n,
{
    be_bytes_len(n as nat, 8);
    let d0 = n as nat;
    let d1 = d0 / 256;
    let d2 = d1 / 256;
    let d3 = d2 / 256;
    let d4 = d3 / 256;
    let d5 = d4 / 256;
    let d6 = d5 / 256;
    let d7 = d6 / 256;
    assert(d7 / 256 == 0);
    be_step(d7, 0);
    be_step(d6, 1);
    be_step(d5, 2);
    be_step(d4, 3);
    be_step(d3, 4);
    be_step(d2, 5);
    be_step(d1, 6);
    be_step(d0, 7);
    assert(be_value(be_bytes(d7 / 256, 0)) == 0);
}

proof fn be_step(n: nat, len: nat)
    ensures
        be_value(be_bytes(n, len + 1)) == be_value(be_bytes(n / 256, len)) * 256 + n % 256,
{
    assert(be_bytes(n, len + 1).drop_last() =~= be_bytes(n / 256, len));
}

/// Writes a number as eight bytes.
pub fn to_be8(n: u64) -> (r: Vec<u8>)
    ensures
        r@ == be8(n),
{
    let d1: u64 = n / 256;
    let d2: u64 = d1 / 256;
    let d3: u64 = d2 / 256;
    let d4: u64 = d3 / 256;
    let d5: u64 = d4 / 256;
    let d6: u64 = d5 / 256;
    let d7: u64 = d6 / 256;
    let bytes: Vec<u8> =
        vec![
            (d7 % 256) as u8,
            (d6 % 256) as u8,
            (d5 % 256) as u8,
            (d4 % 256) as u8,
            (d3 % 256) as u8,
            (d2 % 256) as u8,
            (d1 % 256) as u8,
            (n % 256) as u8,
        ];
    proof {
        reveal_with_fuel(be_bytes, 9);
        assert(bytes@ =~= be8(n));
    }
    bytes
}

/// Reads a number from eight bytes; `None` for any other count of bytes.
pub fn from_be8(bytes: &Vec<u8>) -> (r: Option<u64>)
    ensures
        r is Some <==> bytes@.len() == 8,
        r matches Some(n) ==> n == be_value(bytes@),
{
    if bytes.len() != 8 {
        return None;
    }
    let mut n: u64 = 0;
    for i in 0..8
        invariant
            bytes@.len() == 8,
            n == be_value(bytes@.take(i as int)),
            i == 0 ==> n < 1,
            i == 1 ==> n < 0x100,
            i == 2 ==> n < 0x1_0000,
            i == 3 ==> n < 0x100_0000,
            i == 4 ==> n < 0x1_0000_0000,
            i == 5 ==> n < 0x100_0000_0000,
            i == 6 ==> n < 0x1_0000_0000_0000,
            i == 7 ==> n < 0x100_0000_0000_0000,
    {
        assert(bytes@.take(i + 1).drop_last() =~= bytes@.take(i as int));
        n = n * 256 + bytes[i] as u64;
    }
    assert(bytes@.take(8) =~= bytes@);
    Some(n)
}

// ---------------------------------------------------------------------------
// Keys
// ---------------------------------------------------------------------------

/// The key of the term: the letters `term`.
pub open spec fn term_key() -> Seq<u8> {
    seq![116u8, 101, 114, 109]
}

/// The key of the vote: the letters `voted_for`.
pub open spec fn voted_for_key() -> Seq<u8> {
    seq![118u8, 111, 116, 101, 100, 95, 102, 111, 114]
}

/// The key of the compaction offset: the letters `log_offset`.
pub open spec fn log_offset_key() -> Seq<u8> {
    seq![108u8, 111, 103, 95, 111, 102, 102, 115, 101, 116]
}

/// The key of the snapshot: the letters `snapshot`.
pub open spec fn snapshot_key() -> Seq<u8> {
    seq![115u8, 110, 97, 112, 115, 104, 111, 116]
}

/// What the key of a log entry starts with: the letters `log` and a zero byte.
pub open spec fn log_prefix() -> Seq<u8> {
    seq![108u8, 111, 103, 0]
}

/// The key of the log entry at `index`.
pub open spec fn entry_key(index: u64) -> Seq<u8> {
    log_prefix() + be8(index)
}

/// A key of a log entry.
pub open spec fn is_log_key(key: Seq<u8>) -> bool {
    log_prefix().is_prefix_of(key)
}

/// `a` comes before `b` in the order of the store: byte by byte, and a prefix first.
pub open spec fn comes_before(a: Seq<u8>, b: Seq<u8>) -> bool
    decreases a.len(),
{
    if b.len() == 0 {
        false
    } else if a.len() == 0 {
        true
    } else if a[0] != b[0] {
        a[0] < b[0]
    } else {
        comes_before(a.skip(1), b.skip(1))
    }
}

/// The key of the term.
pub fn get_term_key() -> (r: Vec<u8>)
    ensures
        r@ == term_key(),
{
    let key: Vec<u8> = vec![116, 101, 114, 109];
    assert(key@ =~= term_key());
    key
}

/// The key of the vote.
pub fn get_voted_for_key() -> (r: Vec<u8>)
    ensures
        r@ == voted_for_key(),
{
    let key: Vec<u8> = vec![118, 111, 116, 101, 100, 95, 102, 111, 114];
    assert(key@ =~= voted_for_key());
    key
}

/// The key of the compaction offset.
pub fn get_log_offset_key() -> (r: Vec<u8>)
    ensures
        r@ == log_offset_key(),
{
    let key: Vec<u8> = vec![108, 111, 103, 95, 111, 102, 102, 115, 101, 116];
    assert(key@ =~= log_offset_key());
    key
}

/// The key of the snapshot.
pub fn get_snapshot_key() -> (r: Vec<u8>)
    ensures
        r@ == snapshot_key(),
{
    let key: Vec<u8> = vec![115, 110, 97, 112, 115, 104, 111, 116];
    assert(key@ =~= snapshot_key());
    key
}

/// The key of the log entry at a 1-based index.
pub fn log_key(index: u64) -> (r: Vec<u8>)
    ensures
        r@ == entry_key(index),
{
    let mut key: Vec<u8> = vec![108, 111, 103, 0];
    assert(key@ =~= log_prefix());
    let mut digits = to_be8(index);
    key.append(&mut digits);
    key
}

/// Tells whether this is the key of a log entry.
pub fn has_log_prefix(key: &Vec<u8>) -> (r: bool)
    ensures
        r == is_log_key(key@),
{
    if key.len() < 4 {
        return false;
    }
    let r = key[0] == 108 && key[1] == 111 && key[2] == 103 && key[3] == 0;
    proof {
        if r {
            assert(key@.subrange(0, 4) =~= log_prefix());
        } else {
            assert(is_log_key(key@) ==> key@.subrange(0, 4) =~= log_prefix());
            assert(key@.subrange(0, 4)[0] == key@[0]);
            assert(key@.subrange(0, 4)[1] == key@[1]);
            assert(key@.subrange(0, 4)[2] == key@[2]);
            assert(key@.subrange(0, 4)[3] == key@[3]);
        }
    }
    r
}

/// Tells whether `a` comes before `b` in the order of the store.
pub fn key_before(a: &Vec<u8>, b: &Vec<u8>) -> (r: bool)
    ensures
        r == comes_before(a@, b@),
{
    let mut i: usize = 0;
    assert(a@.skip(0) =~= a@);
    assert(b@.skip(0) =~= b@);
    while i < a.len() && i < b.len()
        invariant
            i <= a@.len(),
            i <= b@.len(),
            comes_before(a@, b@) == comes_before(a@.skip(i as int), b@.skip(i as int)),
        decreases a@.len() - i,
    {
        assert(a@.skip(i as int)[0] == a@[i as int]);
        assert(b@.skip(i as int)[0] == b@[i as int]);
        assert(a@.skip(i as int).skip(1) =~= a@.skip(i + 1));
        assert(b@.skip(i as int).skip(1) =~= b@.skip(i + 1));
        if a[i] != b[i] {
            return a[i] < b[i];
        }
        i = i + 1;
    }
    i < b.len()
}

// ---------------------------------------------------------------------------
// The vote as JSON
// ---------------------------------------------------------------------------

/// A vote as JSON: the number of the node, or `null`.
pub open spec fn voted_for_json(voted_for: Option<u64>) -> Seq<u8> {
    vstd::utf8::encode_utf8(
        match voted_for {
            Some(id) => text::decimal(id as nat),
            None => "null"@,
        },
    )
}

/// What `serde_json::from_slice` reads as an optional number; `None` for bytes that it rejects.
pub uninterp spec fn parsed_voted_for(bytes: Seq<u8>) -> Option<Option<u64>>;

/// Calls `serde_json::to_vec` on an optional number. Writing a number or `null` into memory does
/// not fail, and `serde_json::from_slice` reads the same vote back.
#[verifier::external_body]
fn voted_for_to_json(voted_for: Option<u64>) -> (r: Vec<u8>)
    ensures
        r@ == voted_for_json(voted_for),
        parsed_voted_for(r@) == Some(voted_for),
{
    serde_json::to_vec(&voted_for).unwrap()
}

/// Calls `serde_json::from_slice` for an optional number. What it reads is named; of its value
/// nothing more is said here.
#[verifier::external_body]
fn voted_for_from_json(bytes: &Vec<u8>) -> (r: Option<Option<u64>>)
    ensures
        r == parsed_voted_for(bytes@),
{
    serde_json::from_slice(bytes).ok()
}

// ---------------------------------------------------------------------------
// Writing
// ---------------------------------------------------------------------------

/// A change to the store.
#[derive(Debug)]
pub enum StorageOp {
    Put { key: Vec<u8>, value: Vec<u8> },
    Delete { key: Vec<u8> },
}

/// A change to the store as the model sees it.
#[verifier::ext_equal]
pub enum OpView {
    Put { key: Seq<u8>, value: Seq<u8> },
    Delete { key: Seq<u8> },
}

impl View for StorageOp {
    type V = OpView;

    open spec fn view(&self) -> OpView {
        match *self {
            StorageOp::Put { key, value } => OpView::Put { key: key@, value: value@ },
            StorageOp::Delete { key } => OpView::Delete { key: key@ },
        }
    }
}

/// The changes as the model sees them.
pub open spec fn ops_view(ops: Seq<StorageOp>) -> Seq<OpView> {
    ops.map_values(|op: StorageOp| op@)
}

/// Keys as the model sees them.
pub open spec fn keys_view(keys: Seq<Vec<u8>>) -> Seq<Seq<u8>> {
    keys.map_values(|key: Vec<u8>| key@)
}

/// The changes that delete keys.
pub open spec fn deletes(keys: Seq<Seq<u8>>) -> Seq<OpView> {
    keys.map_values(|key: Seq<u8>| OpView::Delete { key })
}

/// The keys of log entries that a scan starts with.
pub open spec fn leading_log_keys(keys: Seq<Seq<u8>>) -> Seq<Seq<u8>>
    decreases keys.len(),
{
    if keys.len() == 0 || !is_log_key(keys[0]) {
        Seq::empty()
    } else {
        seq![keys[0]] + leading_log_keys(keys.skip(1))
    }
}

/// The keys of log entries before `end` that a scan starts with.
pub open spec fn leading_log_keys_before(keys: Seq<Seq<u8>>, end: Seq<u8>) -> Seq<Seq<u8>>
    decreases keys.len(),
{
    if keys.len() == 0 || !is_log_key(keys[0]) || !comes_before(keys[0], end) {
        Seq::empty()
    } else {
        seq![keys[0]] + leading_log_keys_before(keys.skip(1), end)
    }
}

/// The changes that store the hard state.
pub open spec fn hard_state_ops(term: u64, voted_for: Option<u64>, log_offset: u64) -> Seq<OpView> {
    seq![
        OpView::Put { key: term_key(), value: be8(term) },
        OpView::Put { key: voted_for_key(), value: voted_for_json(voted_for) },
        OpView::Put { key: log_offset_key(), value: be8(log_offset) },
    ]
}

/// The changes that store the hard state: term, vote and compaction offset. Due after every
/// change of term or vote.
pub fn save_hard_state(term: u64, voted_for: Option<u64>, log_offset: u64) -> (r: Vec<StorageOp>)
    ensures
        ops_view(r@) == hard_state_ops(term, voted_for, log_offset),
        parsed_voted_for(voted_for_json(voted_for)) == Some(voted_for),
{
    let json = voted_for_to_json(voted_for);
    let ops: Vec<StorageOp> =
        vec![
            StorageOp::Put { key: get_term_key(), value: to_be8(term) },
            StorageOp::Put { key: get_voted_for_key(), value: json },
            StorageOp::Put { key: get_log_offset_key(), value: to_be8(log_offset) },
        ];
    assert(ops_view(ops@) =~= hard_state_ops(term, voted_for, log_offset));
    ops
}

/// The change that stores a log entry, given its serialised form.
pub fn append_entry(index: u64, value: Vec<u8>) -> (r: StorageOp)
    ensures
        r@ == (OpView::Put { key: entry_key(index), value: value@ }),
{
    StorageOp::Put { key: log_key(index), value }
}

/// The changes that delete all stored log entries from an index on, given the keys that a scan of
/// the store from `log_key` of that index finds, in their order.
pub fn truncate_from(scanned: &Vec<Vec<u8>>) -> (r: Vec<StorageOp>)
    ensures
        ops_view(r@) == deletes(leading_log_keys(keys_view(scanned@))),
{
    let ghost all = keys_view(scanned@);
    let mut ops: Vec<StorageOp> = Vec::new();
    assert(all.skip(0) =~= all);
    assert(Seq::<Seq<u8>>::empty() + leading_log_keys(all) =~= leading_log_keys(all));
    let ghost mut done: Seq<Seq<u8>> = Seq::empty();
    for i in 0..scanned.len()
        invariant
            all == keys_view(scanned@),
            ops_view(ops@) =~= deletes(done),
            leading_log_keys(all) == done + leading_log_keys(all.skip(i as int)),
    {
        let ghost rest = all.skip(i as int);
        assert(rest[0] == scanned@[i as int]@);
        assert(rest.skip(1) =~= all.skip(i + 1));
        if !has_log_prefix(&scanned[i]) {
            assert(done + Seq::<Seq<u8>>::empty() =~= done);
            return ops;
        }
        let key = scanned[i].clone();
        assert(key@ =~= scanned@[i as int]@);
        let ghost before = ops_view(ops@);
        ops.push(StorageOp::Delete { key });
        proof {
            assert(ops_view(ops@) =~= before.push(OpView::Delete { key: rest[0] }));
            assert(leading_log_keys(all) =~= done.push(rest[0]) + leading_log_keys(all.skip(i + 1)));
            assert(deletes(done.push(rest[0])) =~= deletes(done).push(
                OpView::Delete { key: rest[0] },
            ));
            done = done.push(rest[0]);
        }
    }
    assert(done + Seq::<Seq<u8>>::empty() =~= done);
    ops
}

/// The changes that store a snapshot of everything up to `log_offset`.
pub open spec fn snapshot_ops(value: Seq<u8>, log_offset: u64, scanned: Seq<Seq<u8>>) -> Seq<
    OpView,
> {
    let puts = seq![
        OpView::Put { key: snapshot_key(), value },
        OpView::Put { key: log_offset_key(), value: be8(log_offset) },
    ];
    if log_offset > 0 {
        puts + deletes(leading_log_keys_before(scanned, entry_key((log_offset + 1) as u64)))
    } else {
        puts
    }
}

/// The changes that store a snapshot and delete the log entries it stands for, those up to
/// `log_offset`. Given are the snapshot's serialised form and the keys that a scan of the store
/// from `log_key(1)` finds, in their order.
pub fn save_snapshot(value: Vec<u8>, log_offset: u64, scanned: &Vec<Vec<u8>>) -> (r: Vec<StorageOp>)
    requires
        log_offset < u64::MAX,
    ensures
        ops_view(r@) == snapshot_ops(value@, log_offset, keys_view(scanned@)),
{
    let mut ops: Vec<StorageOp> =
        vec![
            StorageOp::Put { key: get_snapshot_key(), value },
            StorageOp::Put { key: get_log_offset_key(), value: to_be8(log_offset) },
        ];
    let ghost puts = ops_view(ops@);
    assert(puts =~= seq![
        OpView::Put { key: snapshot_key(), value: value@ },
        OpView::Put { key: log_offset_key(), value: be8(log_offset) },
    ]);
    if log_offset == 0 {
        return ops;
    }
    let end_key = log_key(log_offset + 1);
    let ghost all = keys_view(scanned@);
    let ghost end = end_key@;
    let ghost mut done: Seq<Seq<u8>> = Seq::empty();
    assert(all.skip(0) =~= all);
    assert(Seq::<Seq<u8>>::empty() + leading_log_keys_before(all, end)
        =~= leading_log_keys_before(all, end));
    assert(puts + deletes(done) =~= puts);
    for i in 0..scanned.len()
        invariant
            all == keys_view(scanned@),
            end == end_key@,
            ops_view(ops@) =~= puts + deletes(done),
            leading_log_keys_before(all, end) == done + leading_log_keys_before(
                all.skip(i as int),
                end,
            ),
            log_offset > 0,
            end == entry_key((log_offset + 1) as u64),
            puts == seq![
                OpView::Put { key: snapshot_key(), value: value@ },
                OpView::Put { key: log_offset_key(), value: be8(log_offset) },
            ],
    {
        let ghost rest = all.skip(i as int);
        assert(rest[0] == scanned@[i as int]@);
        assert(rest.skip(1) =~= all.skip(i + 1));
        if !key_before(&scanned[i], &end_key) || !has_log_prefix(&scanned[i]) {
            assert(done + Seq::<Seq<u8>>::empty() =~= done);
            return ops;
        }
        let key = scanned[i].clone();
        assert(key@ =~= scanned@[i as int]@);
        let ghost before = ops_view(ops@);
        ops.push(StorageOp::Delete { key });
        proof {
            assert(ops_view(ops@) =~= before.push(OpView::Delete { key: rest[0] }));
            assert(leading_log_keys_before(all, end) =~= done.push(rest[0])
                + leading_log_keys_before(all.skip(i + 1), end));
            assert(deletes(done.push(rest[0])) =~= deletes(done).push(
                OpView::Delete { key: rest[0] },
            ));
            done = done.push(rest[0]);
        }
    }
    assert(done + Seq::<Seq<u8>>::empty() =~= done);
    ops
}

// ---------------------------------------------------------------------------
// What is due to be written
// ---------------------------------------------------------------------------

/// A write that is due.
#[derive(Debug, Clone, Copy, PartialEq, Eq, Structural)]
pub enum PlannedWrite {
    HardState { term: u64, voted_for: Option<u64>, log_offset: u64 },
    /// Deletes the stored entries from this index on.
    Truncate { from: u64 },
    /// Stores the snapshot, which covers the log up to `last`.
    Snapshot { last: u64 },
    /// Stores the entry that stands in this place of the log.
    Entry { place: u64 },
}

/// The index and the term of each entry.
pub open spec fn positions(log: Seq<EntryView>) -> Seq<(u64, u64)> {
    log.map_values(|e: EntryView| (e.index, e.term))
}

/// The stored entries that are not compacted.
pub open spec fn past_offset(stored: Seq<(u64, u64)>, log_offset: u64) -> Seq<(u64, u64)> {
    stored.filter(|position: (u64, u64)| position.0 > log_offset)
}

/// The first `k` entries of the log are stored already, and no more than these.
pub open spec fn is_kept(stored: Seq<(u64, u64)>, log: Seq<EntryView>, k: int) -> bool {
    &&& 0 <= k <= stored.len()
    &&& k <= log.len()
    &&& forall|i: int| 0 <= i < k ==> #[trigger] stored[i] == (log[i].index, log[i].term)
    &&& k < stored.len() && k < log.len() ==> stored[k] != (log[k].index, log[k].term)
}

/// How many entries at the start of the log are stored already.
pub open spec fn kept(stored: Seq<(u64, u64)>, log: Seq<EntryView>) -> int {
    choose|k: int| is_kept(stored, log, k)
}

/// It is told exactly how many entries are stored already.
pub proof fn kept_is_unique(stored: Seq<(u64, u64)>, log: Seq<EntryView>, k: int)
    requires
        is_kept(stored, log, k),
    ensures
        kept(stored, log) == k,
{
    let other = kept(stored, log);
    assert(is_kept(stored, log, other));
    if other < k {
        assert(stored[other] == (log[other].index, log[other].term));
    }
    if k < other {
        assert(stored[k] == (log[k].index, log[k].term));
    }
}

/// The snapshot of the state is new.
pub open spec fn snapshot_is_due(log_offset: u64, s: StateView) -> bool {
    s.snapshot is Some && s.log_offset != log_offset
}

/// The hard state is due: the term, the vote or an offset without a snapshot is new.
pub open spec fn planned_hard_state(
    term: u64,
    voted_for: Option<u64>,
    log_offset: u64,
    s: StateView,
) -> Seq<PlannedWrite> {
    let offset = if snapshot_is_due(log_offset, s) {
        log_offset
    } else {
        s.log_offset
    };
    if term != s.current_term || voted_for != s.voted_for || log_offset != offset {
        seq![
            PlannedWrite::HardState {
                term: s.current_term,
                voted_for: s.voted_for,
                log_offset: offset,
            },
        ]
    } else {
        Seq::empty()
    }
}

/// The stored entries that the log does not go on with are due to be deleted.
pub open spec fn planned_truncation(rest: Seq<(u64, u64)>, s: StateView) -> Seq<PlannedWrite> {
    let k = kept(rest, s.log);
    if k < rest.len() {
        seq![PlannedWrite::Truncate { from: rest[k].0 }]
    } else {
        Seq::empty()
    }
}

/// The snapshot is due where it is new.
pub open spec fn planned_snapshot(log_offset: u64, s: StateView) -> Seq<PlannedWrite> {
    if snapshot_is_due(log_offset, s) {
        seq![PlannedWrite::Snapshot { last: s.log_offset }]
    } else {
        Seq::empty()
    }
}

/// The writes that are due when a node is in state `s`, given the stored term, vote and offset
/// and the positions of the stored entries. The term and the vote come first, and an offset comes
/// with its snapshot.
pub open spec fn planned(
    term: u64,
    voted_for: Option<u64>,
    log_offset: u64,
    stored: Seq<(u64, u64)>,
    s: StateView,
) -> Seq<PlannedWrite> {
    let rest = past_offset(stored, s.log_offset);
    planned_hard_state(term, voted_for, log_offset, s) + planned_truncation(rest, s)
        + planned_snapshot(log_offset, s) + planned_entries(kept(rest, s.log), s.log.len() as int)
}

/// The entries from one place of the log up to another are due.
pub open spec fn planned_entries(from: int, to: int) -> Seq<PlannedWrite> {
    Seq::new(
        if from <= to {
            (to - from) as nat
        } else {
            0
        },
        |i: int| PlannedWrite::Entry { place: (from + i) as u64 },
    )
}

/// The stored entries that are not compacted.
fn positions_past(stored: &Vec<(u64, u64)>, log_offset: u64) -> (r: Vec<(u64, u64)>)
    ensures
        r@ == past_offset(stored@, log_offset),
{
    let ghost which = |position: (u64, u64)| position.0 > log_offset;
    let mut rest: Vec<(u64, u64)> = Vec::new();
    proof {
        reveal(Seq::filter);
    }
    for i in 0..stored.len()
        invariant
            which == (|position: (u64, u64)| position.0 > log_offset),
            rest@ == stored@.take(i as int).filter(which),
    {
        proof {
            reveal(Seq::filter);
            assert(stored@.take(i + 1).drop_last() =~= stored@.take(i as int));
        }
        if stored[i].0 > log_offset {
            rest.push(stored[i]);
        }
    }
    assert(stored@.take(stored@.len() as int) =~= stored@);
    rest
}

/// How many entries at the start of a log are stored already.
fn kept_entries(stored: &Vec<(u64, u64)>, log: &Vec<LogEntry>) -> (r: usize)
    ensures
        is_kept(stored@, state::entries_view(log@), r as int),
        r == kept(stored@, state::entries_view(log@)),
{
    let mut k: usize = 0;
    while k < stored.len() && k < log.len() && stored[k].0 == log[k].index && stored[k].1
        == log[k].term
        invariant
            k <= stored@.len(),
            k <= log@.len(),
            forall|i: int| 0 <= i < k ==> #[trigger] stored@[i] == (log@[i].index, log@[i].term),
        decreases stored@.len() - k,
    {
        k = k + 1;
    }
    proof {
        kept_is_unique(stored@, state::entries_view(log@), k as int);
    }
    k
}

/// The writes that are due when a node is in this state, given the stored term, vote and offset
/// and the positions of the stored entries. Written one after the other, they bring a store that
/// tells the state before to tell the state now.
pub fn writes_after(
    term: u64,
    voted_for: Option<u64>,
    log_offset: u64,
    stored: &Vec<(u64, u64)>,
    state: &RaftState,
) -> (r: Vec<PlannedWrite>)
    ensures
        r@ == planned(term, voted_for, log_offset, stored@, state@),
        forall|writes: Seq<Write>, before: StateView, coding: Coding|
            {
                &&& #[trigger] saving_laws::tells(writes, before, coding)
                &&& saving_laws::can_follow(before, state@)
                &&& before.current_term == term
                &&& before.voted_for == voted_for
                &&& before.log_offset == log_offset
                &&& positions(before.log) == stored@
            } ==> saving_laws::tells(
                writes + saving_laws::writes_of(r@, state@, coding),
                state@,
                coding,
            ),
{
    let rest = positions_past(stored, state.log_offset);
    let k: usize = kept_entries(&rest, &state.log);
    let due = match &state.snapshot {
        Some(_) => state.log_offset != log_offset,
        None => false,
    };
    let offset: u64 = if due {
        log_offset
    } else {
        state.log_offset
    };
    let same_vote = match (voted_for, state.voted_for) {
        (Some(a), Some(b)) => a == b,
        (None, None) => true,
        _ => false,
    };
    let mut writes: Vec<PlannedWrite> = Vec::new();
    if term != state.current_term || !same_vote || log_offset != offset {
        writes.push(
            PlannedWrite::HardState {
                term: state.current_term,
                voted_for: state.voted_for,
                log_offset: offset,
            },
        );
    }
    if k < rest.len() {
        writes.push(PlannedWrite::Truncate { from: rest[k].0 });
    }
    if due {
        writes.push(PlannedWrite::Snapshot { last: state.log_offset });
    }
    let ghost first = writes@;
    assert(first + planned_entries(k as int, k as int) =~= first);
    for place in k..state.log.len()
        invariant
            k <= state.log@.len(),
            writes@ == first + planned_entries(k as int, place as int),
    {
        writes.push(PlannedWrite::Entry { place: place as u64 });
        assert(writes@ =~= first + planned_entries(k as int, place + 1));
    }
    assert(writes@ =~= planned(term, voted_for, log_offset, stored@, state@));
    proof {
        assert forall|writes: Seq<Write>, before: StateView, coding: Coding|
            {
                &&& #[trigger] saving_laws::tells(writes, before, coding)
                &&& saving_laws::can_follow(before, state@)
                &&& before.current_term == term
                &&& before.voted_for == voted_for
                &&& before.log_offset == log_offset
                &&& positions(before.log) == stored@
            } implies saving_laws::tells(
            writes + saving_laws::writes_of(
                planned(term, voted_for, log_offset, stored@, state@),
                state@,
                coding,
            ),
            state@,
            coding,
        ) by {
            saving_laws::planned_writes_are_enough(writes, before, state@, coding);
        }
    }
    writes
}

// ---------------------------------------------------------------------------
// Reading
// ---------------------------------------------------------------------------

/// State recovered from a store.
#[derive(Debug)]
pub struct PersistedState {
    pub current_term: u64,
    pub voted_for: Option<u64>,
    pub log_offset: u64,
    pub snapshot: Option<Snapshot>,
    pub log: Vec<LogEntry>,
}

/// What is wrong with the data in a store.
#[derive(Debug, Clone, Copy, PartialEq, Eq, Structural)]
pub enum StorageError {
    InvalidTerm,
    InvalidVotedFor,
    InvalidLogOffset,
}

/// The hard state read from a store.
#[derive(Debug, Clone, Copy, PartialEq, Eq, Structural)]
pub struct HardState {
    pub current_term: u64,
    pub voted_for: Option<u64>,
    pub log_offset: u64,
}

/// Optional bytes as the model sees them.
pub open spec fn opt_bytes(bytes: Option<Vec<u8>>) -> Option<Seq<u8>> {
    match bytes {
        Some(b) => Some(b@),
        None => None,
    }
}

/// The number that eight stored bytes stand for.
pub open spec fn stored_number(bytes: Seq<u8>) -> Option<u64> {
    if bytes.len() == 8 {
        Some(be_value(bytes) as u64)
    } else {
        None
    }
}

/// The hard state that the stored values stand for. A store without a term is fresh; a missing
/// vote or offset reads as none and 0.
pub open spec fn stored_hard_state(
    term: Option<Seq<u8>>,
    voted_for: Option<Seq<u8>>,
    log_offset: Option<Seq<u8>>,
) -> Result<Option<HardState>, StorageError> {
    match term {
        None => Ok(None),
        Some(term) => match stored_number(term) {
            None => Err(StorageError::InvalidTerm),
            Some(current_term) => match (match voted_for {
                Some(bytes) => parsed_voted_for(bytes),
                None => Some(None::<u64>),
            }) {
                None => Err(StorageError::InvalidVotedFor),
                Some(voted_for) => match (match log_offset {
                    Some(bytes) => stored_number(bytes),
                    None => Some(0u64),
                }) {
                    None => Err(StorageError::InvalidLogOffset),
                    Some(log_offset) => Ok(
                        Some(HardState { current_term, voted_for, log_offset }),
                    ),
                },
            },
        },
    }
}

/// Reads the hard state from the values stored for term, vote and offset. A fresh store has none.
pub fn load_hard_state(
    term: Option<Vec<u8>>,
    voted_for: Option<Vec<u8>>,
    log_offset: Option<Vec<u8>>,
) -> (r: Result<Option<HardState>, StorageError>)
    ensures
        r == stored_hard_state(opt_bytes(term), opt_bytes(voted_for), opt_bytes(log_offset)),
{
    let term_bytes = match term {
        Some(bytes) => bytes,
        None => {
            return Ok(None);
        },
    };
    let current_term: u64 = match from_be8(&term_bytes) {
        Some(term) => term,
        None => {
            return Err(StorageError::InvalidTerm);
        },
    };
    let voted_for: Option<u64> = match voted_for {
        Some(bytes) => match voted_for_from_json(&bytes) {
            Some(vote) => vote,
            None => {
                return Err(StorageError::InvalidVotedFor);
            },
        },
        None => None,
    };
    let log_offset: u64 = match log_offset {
        Some(bytes) => match from_be8(&bytes) {
            Some(offset) => offset,
            None => {
                return Err(StorageError::InvalidLogOffset);
            },
        },
        None => 0,
    };
    Ok(Some(HardState { current_term, voted_for, log_offset }))
}

/// Where the scan for the log entries of a stored log starts.
pub fn log_scan_start(hard_state: &HardState) -> (r: Vec<u8>)
    requires
        hard_state.log_offset < u64::MAX,
    ensures
        r@ == entry_key((hard_state.log_offset + 1) as u64),
{
    log_key(hard_state.log_offset + 1)
}

/// A stored pair of key and value as the model sees it.
pub open spec fn pairs_view(pairs: Seq<(Vec<u8>, Vec<u8>)>) -> Seq<(Seq<u8>, Seq<u8>)> {
    pairs.map_values(|p: (Vec<u8>, Vec<u8>)| (p.0@, p.1@))
}

/// The values of the log entries that a scan starts with.
pub open spec fn leading_log_values(pairs: Seq<(Seq<u8>, Seq<u8>)>) -> Seq<Seq<u8>>
    decreases pairs.len(),
{
    if pairs.len() == 0 || !is_log_key(pairs[0].0) {
        Seq::empty()
    } else {
        seq![pairs[0].1] + leading_log_values(pairs.skip(1))
    }
}

/// The serialised log entries, in order of their index, given the pairs that a scan of the store
/// from `log_scan_start` finds, in their order.
pub fn load_log(scanned: &Vec<(Vec<u8>, Vec<u8>)>) -> (r: Vec<Vec<u8>>)
    ensures
        keys_view(r@) == leading_log_values(pairs_view(scanned@)),
{
    let ghost all = pairs_view(scanned@);
    let mut values: Vec<Vec<u8>> = Vec::new();
    assert(all.skip(0) =~= all);
    for i in 0..scanned.len()
        invariant
            all == pairs_view(scanned@),
            leading_log_values(all) =~= keys_view(values@) + leading_log_values(
                all.skip(i as int),
            ),
    {
        let ghost rest = all.skip(i as int);
        let ghost before = keys_view(values@);
        assert(rest[0] == (scanned@[i as int].0@, scanned@[i as int].1@));
        assert(rest.skip(1) =~= all.skip(i + 1));
        if !has_log_prefix(&scanned[i].0) {
            return values;
        }
        let value = scanned[i].1.clone();
        assert(value@ =~= scanned@[i as int].1@);
        values.push(value);
        proof {
            assert(keys_view(values@) =~= before.push(rest[0].1));
            assert(leading_log_values(all) =~= before.push(rest[0].1) + leading_log_values(
                all.skip(i + 1),
            ));
        }
    }
    values
}

} // verus!
