use std::collections::HashMap;

use crate::clock::Timestamp;
use crate::ids::JobId;
use crate::lemmas;
use crate::scheduler::JobStatus;
use crate::text;
use vstd::prelude::*;

verus! {

broadcast use vstd::std_specs::hash::group_hash_axioms;

/// Role of a node in the cluster.
#[derive(Debug, Clone, Copy, PartialEq, Eq, Structural)]
pub enum RaftRole {
    Follower,
    Candidate,
    Leader,
}

impl RaftRole {
    /// The role as users read it.
    pub open spec fn text(self) -> Seq<char> {
        match self {
            RaftRole::Follower => "follower"@,
            RaftRole::Candidate => "candidate"@,
            RaftRole::Leader => "leader"@,
        }
    }

    /// The role as users read it.
    pub fn to_string(&self) -> (r: String)
        ensures
            r@ == self.text(),
    {
        match self {
            RaftRole::Follower => "follower".to_owned(),
            RaftRole::Candidate => "candidate".to_owned(),
            RaftRole::Leader => "leader".to_owned(),
        }
    }
}

/// Replicated metadata of one execution. The output stays on the node that ran the job.
#[derive(Debug, Clone, Copy, PartialEq, Eq, Structural)]
pub struct JobStatusUpdate {
    pub job_id: JobId,
    pub status: JobStatus,
    pub executed_by: u64,
    pub exit_code: Option<i32>,
    pub completed_at: Option<Timestamp>,
}

/// Commands that are replicated through Raft.
#[derive(Debug)]
pub enum Command {
    /// Submit a new job.
    SubmitJob { job_id: JobId, command: String, image: Option<String>, created_at: Timestamp },
    /// Update the metadata of a job; the output is not replicated.
    UpdateJobStatus {
        job_id: JobId,
        status: JobStatus,
        executed_by: u64,
        exit_code: Option<i32>,
        completed_at: Option<Timestamp>,
    },
    /// Update the metadata of several jobs at once.
    BatchUpdateJobStatus { updates: Vec<JobStatusUpdate> },
    /// Assign a job to a worker.
    AssignJob { job_id: JobId, worker_id: u64 },
    /// Cancel a job.
    CancelJob { job_id: JobId },
    /// Register a worker.
    RegisterWorker { worker_id: u64 },
    /// No effect.
    Noop,
}

/// A command as the model sees it.
#[verifier::ext_equal]
pub enum CommandView {
    SubmitJob {
        job_id: JobId,
        command: Seq<char>,
        image: Option<Seq<char>>,
        created_at: Timestamp,
    },
    UpdateJobStatus { update: JobStatusUpdate },
    BatchUpdateJobStatus { updates: Seq<JobStatusUpdate> },
    AssignJob { job_id: JobId, worker_id: u64 },
    CancelJob { job_id: JobId },
    RegisterWorker { worker_id: u64 },
    Noop,
}

impl View for Command {
    type V = CommandView;

    open spec fn view(&self) -> CommandView {
        match *self {
            Command::SubmitJob { job_id, command, image, created_at } => CommandView::SubmitJob {
                job_id,
                command: command@,
                image: text::opt_text(image),
                created_at,
            },
            Command::UpdateJobStatus { job_id, status, executed_by, exit_code, completed_at } => {
                CommandView::UpdateJobStatus {
                    update: JobStatusUpdate {
                        job_id,
                        status,
                        executed_by,
                        exit_code,
                        completed_at,
                    },
                }
            },
            Command::BatchUpdateJobStatus { updates } => CommandView::BatchUpdateJobStatus {
                updates: updates@,
            },
            Command::AssignJob { job_id, worker_id } => CommandView::AssignJob {
                job_id,
                worker_id,
            },
            Command::CancelJob { job_id } => CommandView::CancelJob { job_id },
            Command::RegisterWorker { worker_id } => CommandView::RegisterWorker { worker_id },
            Command::Noop => CommandView::Noop,
        }
    }
}

impl Clone for Command {
    fn clone(&self) -> (r: Self)
        ensures
            r@ == self@,
    {
        match self {
            Command::SubmitJob { job_id, command, image, created_at } => Command::SubmitJob {
                job_id: *job_id,
                command: command.clone(),
                image: image.clone(),
                created_at: *created_at,
            },
            Command::UpdateJobStatus { job_id, status, executed_by, exit_code, completed_at } => {
                Command::UpdateJobStatus {
                    job_id: *job_id,
                    status: *status,
                    executed_by: *executed_by,
                    exit_code: *exit_code,
                    completed_at: *completed_at,
                }
            },
            Command::BatchUpdateJobStatus { updates } => {
                let copy = updates.clone();
                assert(copy@ =~= updates@);
                Command::BatchUpdateJobStatus { updates: copy }
            },
            Command::AssignJob { job_id, worker_id } => Command::AssignJob {
                job_id: *job_id,
                worker_id: *worker_id,
            },
            Command::CancelJob { job_id } => Command::CancelJob { job_id: *job_id },
            Command::RegisterWorker { worker_id } => Command::RegisterWorker {
                worker_id: *worker_id,
            },
            Command::Noop => Command::Noop,
        }
    }
}

/// One entry of the Raft log.
#[derive(Debug)]
pub struct LogEntry {
    pub term: u64,
    pub index: u64,
    pub command: Command,
}

/// A log entry as the model sees it.
#[verifier::ext_equal]
pub struct EntryView {
    pub term: u64,
    pub index: u64,
    pub command: CommandView,
}

impl View for LogEntry {
    type V = EntryView;

    open spec fn view(&self) -> EntryView {
        EntryView { term: self.term, index: self.index, command: self.command@ }
    }
}

impl Clone for LogEntry {
    fn clone(&self) -> (r: Self)
        ensures
            r@ == self@,
    {
        LogEntry { term: self.term, index: self.index, command: self.command.clone() }
    }
}

/// The entries as the model sees them.
pub open spec fn entries_view(entries: Seq<LogEntry>) -> Seq<EntryView> {
    entries.map_values(|e: LogEntry| e@)
}

/// A job in a snapshot: what is replicated of it, without its output.
#[derive(Debug)]
pub struct SnapshotJob {
    pub id: JobId,
    pub command: String,
    pub image: Option<String>,
    pub status: JobStatus,
    pub assigned_worker: Option<u64>,
    pub executed_by: Option<u64>,
    pub exit_code: Option<i32>,
    pub created_at: Timestamp,
    pub completed_at: Option<Timestamp>,
}

/// A job in a snapshot as the model sees it.
#[verifier::ext_equal]
pub struct SnapshotJobView {
    pub id: JobId,
    pub command: Seq<char>,
    pub image: Option<Seq<char>>,
    pub status: JobStatus,
    pub assigned_worker: Option<u64>,
    pub executed_by: Option<u64>,
    pub exit_code: Option<i32>,
    pub created_at: Timestamp,
    pub completed_at: Option<Timestamp>,
}

impl View for SnapshotJob {
    type V = SnapshotJobView;

    open spec fn view(&self) -> SnapshotJobView {
        SnapshotJobView {
            id: self.id,
            command: self.command@,
            image: text::opt_text(self.image),
            status: self.status,
            assigned_worker: self.assigned_worker,
            executed_by: self.executed_by,
            exit_code: self.exit_code,
            created_at: self.created_at,
            completed_at: self.completed_at,
        }
    }
}

impl Clone for SnapshotJob {
    fn clone(&self) -> (r: Self)
        ensures
            r@ == self@,
    {
        SnapshotJob {
            id: self.id,
            command: self.command.clone(),
            image: self.image.clone(),
            status: self.status,
            assigned_worker: self.assigned_worker,
            executed_by: self.executed_by,
            exit_code: self.exit_code,
            created_at: self.created_at,
            completed_at: self.completed_at,
        }
    }
}

/// The state that the log up to `last_included_index` led to.
#[derive(Debug)]
pub struct Snapshot {
    pub last_included_index: u64,
    pub last_included_term: u64,
    pub jobs: Vec<SnapshotJob>,
    pub workers: Vec<u64>,
}

/// A snapshot as the model sees it.
#[verifier::ext_equal]
pub struct SnapshotView {
    pub last_included_index: u64,
    pub last_included_term: u64,
    pub jobs: Seq<SnapshotJobView>,
    pub workers: Seq<u64>,
}

/// The jobs of a snapshot as the model sees them.
pub open spec fn snapshot_jobs_view(jobs: Seq<SnapshotJob>) -> Seq<SnapshotJobView> {
    jobs.map_values(|job: SnapshotJob| job@)
}

impl View for Snapshot {
    type V = SnapshotView;

    open spec fn view(&self) -> SnapshotView {
        SnapshotView {
            last_included_index: self.last_included_index,
            last_included_term: self.last_included_term,
            jobs: snapshot_jobs_view(self.jobs@),
            workers: self.workers@,
        }
    }
}

impl Clone for Snapshot {
    fn clone(&self) -> (r: Self)
        ensures
            r@ == self@,
    {
        let jobs = self.jobs.clone();
        let workers = self.workers.clone();
        proof {
            assert forall|i: int| 0 <= i < jobs@.len() implies (#[trigger] jobs@[i])@
                == self.jobs@[i]@ by {
                assert(cloned::<SnapshotJob>(self.jobs@[i], jobs@[i]));
            }
            assert(snapshot_jobs_view(jobs@) =~= snapshot_jobs_view(self.jobs@));
            assert(workers@ =~= self.workers@);
        }
        Snapshot {
            last_included_index: self.last_included_index,
            last_included_term: self.last_included_term,
            jobs,
            workers,
        }
    }
}

/// What an optional snapshot holds.
pub open spec fn opt_snapshot(snapshot: Option<Snapshot>) -> Option<SnapshotView> {
    match snapshot {
        Some(s) => Some(s@),
        None => None,
    }
}

/// State of a Raft node.
///
/// # Safety
///
/// - Election safety: a node votes for at most one candidate in a term (`voted_for`), and a
///   candidate needs the votes of a majority.
/// - Leader append-only: a leader changes its log by `append_entry` alone; only a follower
///   truncates, on a conflict.
/// - Log matching: entries are taken over only behind an entry both sides agree on
///   (`prev_log_index`, `prev_log_term`).
/// - Leader completeness: a vote goes only to a candidate whose log is up to date
///   (`is_log_up_to_date`), and a leader commits only entries of its own term.
/// - State machine safety: an entry is applied only once it is committed
///   (`last_applied <= commit_index`).
#[derive(Debug)]
pub struct RaftState {
    // Persistent state
    pub current_term: u64,
    pub voted_for: Option<u64>,
    /// Entries after the compacted prefix.
    pub log: Vec<LogEntry>,
    /// Index of the last compacted entry; 0 without compaction.
    pub log_offset: u64,
    /// Snapshot that stands for the compacted prefix.
    pub snapshot: Option<Snapshot>,
    // Volatile state on all nodes
    pub commit_index: u64,
    pub last_applied: u64,
    // Volatile state on leaders, set up anew after an election
    pub next_index: HashMap<u64, u64>,
    pub match_index: HashMap<u64, u64>,
    pub role: RaftRole,
    /// The leader this node knows of.
    pub leader_id: Option<u64>,
    /// Votes received in the current election.
    pub votes_received: u64,
}

/// The state as the model sees it.
#[verifier::ext_equal]
pub struct StateView {
    pub current_term: u64,
    pub voted_for: Option<u64>,
    pub log: Seq<EntryView>,
    pub log_offset: u64,
    pub snapshot: Option<SnapshotView>,
    pub commit_index: u64,
    pub last_applied: u64,
    pub next_index: Map<u64, u64>,
    pub match_index: Map<u64, u64>,
    pub role: RaftRole,
    pub leader_id: Option<u64>,
    pub votes_received: u64,
}

impl View for RaftState {
    type V = StateView;

    open spec fn view(&self) -> StateView {
        StateView {
            current_term: self.current_term,
            voted_for: self.voted_for,
            log: entries_view(self.log@),
            log_offset: self.log_offset,
            snapshot: opt_snapshot(self.snapshot),
            commit_index: self.commit_index,
            last_applied: self.last_applied,
            next_index: self.next_index@,
            match_index: self.match_index@,
            role: self.role,
            leader_id: self.leader_id,
            votes_received: self.votes_received,
        }
    }
}

/// The state of a node that has just started.
pub open spec fn initial_state() -> StateView {
    StateView {
        current_term: 0,
        voted_for: None,
        log: Seq::empty(),
        log_offset: 0,
        snapshot: None,
        commit_index: 0,
        last_applied: 0,
        next_index: Map::empty(),
        match_index: Map::empty(),
        role: RaftRole::Follower,
        leader_id: None,
        votes_received: 0,
    }
}

impl StateView {
    /// Index of the last entry: that of the last compacted one when the log is empty.
    pub open spec fn last_index(self) -> u64 {
        if self.log.len() > 0 {
            self.log.last().index
        } else {
            self.log_offset
        }
    }

    /// Term of the last entry: that of the last compacted one when the log is empty.
    pub open spec fn last_term(self) -> u64 {
        if self.log.len() > 0 {
            self.log.last().term
        } else {
            match self.snapshot {
                Some(snapshot) => snapshot.last_included_term,
                None => 0,
            }
        }
    }

    /// The log holds an entry in the place for `index`.
    pub open spec fn has_entry(self, index: int) -> bool {
        self.log_offset < index <= self.log_offset + self.log.len()
    }

    /// The entry in the place for `index`.
    pub open spec fn entry(self, index: int) -> EntryView
        recommends
            self.has_entry(index),
    {
        self.log[index - self.log_offset - 1]
    }

    /// The entries from `index` on; all of them when `index` lies in the compacted prefix.
    pub open spec fn entries_from(self, index: int) -> Seq<EntryView> {
        if index <= self.log_offset {
            self.log
        } else if index - self.log_offset - 1 >= self.log.len() {
            Seq::empty()
        } else {
            self.log.skip(index - self.log_offset - 1)
        }
    }

    /// A log that ends at `index` and `term` is at least as up to date as this one: its last term
    /// is later, or the same with an index not smaller.
    pub open spec fn up_to_date(self, index: u64, term: u64) -> bool {
        term > self.last_term() || (term == self.last_term() && index >= self.last_index())
    }

    /// The state after an entry with `command` was appended.
    pub open spec fn appended(self, command: CommandView) -> StateView {
        StateView {
            log: self.log.push(
                EntryView {
                    term: self.current_term,
                    index: (self.last_index() + 1) as u64,
                    command,
                },
            ),
            ..self
        }
    }

    /// The log cut off before `index`.
    pub open spec fn truncated_log(self, index: int) -> Seq<EntryView> {
        if index <= self.log_offset {
            Seq::empty()
        } else if index - self.log_offset - 1 < self.log.len() {
            self.log.take(index - self.log_offset - 1)
        } else {
            self.log
        }
    }

    /// The state of a follower in `term` that has not voted yet.
    pub open spec fn as_follower(self, term: u64) -> StateView {
        StateView {
            role: RaftRole::Follower,
            current_term: term,
            voted_for: None,
            votes_received: 0,
            ..self
        }
    }

    /// The state of a follower in the same term. A vote given in the term stays given.
    pub open spec fn stepped_down(self) -> StateView {
        StateView { role: RaftRole::Follower, votes_received: 0, ..self }
    }

    /// The state of a candidate in the next term that has voted for itself.
    pub open spec fn as_candidate(self, my_id: u64) -> StateView {
        StateView {
            role: RaftRole::Candidate,
            current_term: (self.current_term + 1) as u64,
            voted_for: Some(my_id),
            votes_received: 1,
            leader_id: None,
            ..self
        }
    }

    /// The state of a leader at the start of its leadership: every peer is to receive the entry
    /// after the last one, and nothing is known to have arrived.
    pub open spec fn as_leader(self, my_id: u64, peer_ids: Seq<u64>) -> StateView {
        StateView {
            role: RaftRole::Leader,
            leader_id: Some(my_id),
            next_index: Map::new(
                |id: u64| peer_ids.contains(id),
                |id: u64| (self.last_index() + 1) as u64,
            ),
            match_index: Map::new(|id: u64| peer_ids.contains(id), |id: u64| 0u64),
            ..self
        }
    }
}

/// Number of entries past which the log is compacted.
pub const COMPACTION_THRESHOLD: usize = 1000;

impl StateView {
    /// The log is long, and part of it is applied.
    pub open spec fn compactable(self) -> bool {
        &&& self.log.len() > COMPACTION_THRESHOLD
        &&& self.has_entry(self.last_applied as int)
    }

    /// The state with the applied prefix of the log replaced by a snapshot.
    pub open spec fn compacted(self, jobs: Seq<SnapshotJobView>, workers: Seq<u64>) -> StateView
        recommends
            self.has_entry(self.last_applied as int),
    {
        StateView {
            log: self.log.skip(self.last_applied - self.log_offset),
            log_offset: self.last_applied,
            snapshot: Some(
                SnapshotView {
                    last_included_index: self.last_applied,
                    last_included_term: self.entry(self.last_applied as int).term,
                    jobs,
                    workers,
                },
            ),
            ..self
        }
    }
}

impl RaftState {
    /// The state of a node that has just started.
    pub fn new() -> (r: Self)
        ensures
            r@ == initial_state(),
    {
        RaftState {
            current_term: 0,
            voted_for: None,
            log: Vec::new(),
            log_offset: 0,
            snapshot: None,
            commit_index: 0,
            last_applied: 0,
            next_index: HashMap::new(),
            match_index: HashMap::new(),
            role: RaftRole::Follower,
            leader_id: None,
            votes_received: 0,
        }
    }

    /// Index of the last entry.
    pub fn last_log_index(&self) -> (r: u64)
        ensures
            r == self@.last_index(),
    {
        if self.log.len() > 0 {
            self.log[self.log.len() - 1].index
        } else {
            self.log_offset
        }
    }

    /// Term of the last entry.
    pub fn last_log_term(&self) -> (r: u64)
        ensures
            r == self@.last_term(),
    {
        if self.log.len() > 0 {
            self.log[self.log.len() - 1].term
        } else {
            match &self.snapshot {
                Some(snapshot) => snapshot.last_included_term,
                None => 0,
            }
        }
    }

    /// The entry at a 1-based index. There is none at 0, in the compacted prefix or past the end.
    pub fn get_entry(&self, index: u64) -> (r: Option<&LogEntry>)
        ensures
            r is Some <==> self@.has_entry(index as int),
            r matches Some(entry) ==> entry@ == self@.entry(index as int),
    {
        if index <= self.log_offset {
            return None;
        }
        let position: u64 = index - self.log_offset - 1;
        if position < self.log.len() as u64 {
            Some(&self.log[position as usize])
        } else {
            None
        }
    }

    /// The entries from an index on; all of them when the index lies in the compacted prefix.
    pub fn get_entries_from(&self, start_index: u64) -> (r: Vec<LogEntry>)
        ensures
            entries_view(r@) == self@.entries_from(start_index as int),
    {
        let mut start: usize = 0;
        if start_index > self.log_offset {
            let position: u64 = start_index - self.log_offset - 1;
            if position >= self.log.len() as u64 {
                return Vec::new();
            }
            start = position as usize;
        }
        let mut entries: Vec<LogEntry> = Vec::new();
        let ghost from = start as int;
        for i in start..self.log.len()
            invariant
                from == start,
                from <= i <= self.log@.len(),
                entries@.len() == i - from,
                forall|k: int|
                    0 <= k < entries@.len() ==> (#[trigger] entries@[k])@ == self.log@[from + k]@,
        {
            entries.push(self.log[i].clone());
        }
        assert(entries_view(entries@) =~= self@.entries_from(start_index as int));
        entries
    }

    /// Appends an entry with this command in the current term.
    pub fn append_entry(&mut self, command: Command) -> (r: &LogEntry)
        requires
            old(self)@.last_index() < u64::MAX,
        ensures
            final(self)@ == old(self)@.appended(command@),
            r@ == final(self)@.log.last(),
    {
        let index: u64 = self.last_log_index() + 1;
        let entry = LogEntry { term: self.current_term, index, command };
        self.log.push(entry);
        assert(self@.log =~= old(self)@.appended(command@).log);
        &self.log[self.log.len() - 1]
    }

    /// Cuts the log off before an index and appends entries.
    pub fn truncate_and_append(&mut self, from_index: u64, entries: Vec<LogEntry>)
        ensures
            final(self)@ == (StateView {
                log: old(self)@.truncated_log(from_index as int) + entries_view(entries@),
                ..old(self)@
            }),
    {
        self.truncate_log(from_index);
        let ghost kept = self.log@;
        let mut entries = entries;
        let ghost added = entries@;
        self.log.append(&mut entries);
        assert(entries_view(kept + added) =~= entries_view(kept) + entries_view(added));
    }

    /// Cuts the log off before an index.
    pub fn truncate_log(&mut self, from_index: u64)
        ensures
            final(self)@ == (StateView {
                log: old(self)@.truncated_log(from_index as int),
                ..old(self)@
            }),
    {
        if from_index <= self.log_offset {
            self.log.clear();
        } else {
            let position: u64 = from_index - self.log_offset - 1;
            if position < self.log.len() as u64 {
                self.log.truncate(position as usize);
            }
        }
        assert(self@.log =~= old(self)@.truncated_log(from_index as int));
    }

    /// Tells whether a log that ends at this index and term is at least as up to date as ours.
    pub fn is_log_up_to_date(&self, last_log_index: u64, last_log_term: u64) -> (r: bool)
        ensures
            r == self@.up_to_date(last_log_index, last_log_term),
    {
        let our_last_term: u64 = self.last_log_term();
        let our_last_index: u64 = self.last_log_index();
        last_log_term > our_last_term || (last_log_term == our_last_term && last_log_index
            >= our_last_index)
    }

    /// Becomes a follower in `term`.
    pub fn become_follower(&mut self, term: u64)
        ensures
            final(self)@ == old(self)@.as_follower(term),
    {
        self.role = RaftRole::Follower;
        self.current_term = term;
        self.voted_for = None;
        self.votes_received = 0;
    }

    /// Becomes a follower in the same term. A vote given in the term stays given.
    pub fn step_down(&mut self)
        ensures
            final(self)@ == old(self)@.stepped_down(),
    {
        self.role = RaftRole::Follower;
        self.votes_received = 0;
    }

    /// Becomes a candidate in the next term, with a vote for itself.
    pub fn become_candidate(&mut self, my_id: u64)
        requires
            old(self)@.current_term < u64::MAX,
        ensures
            final(self)@ == old(self)@.as_candidate(my_id),
    {
        self.role = RaftRole::Candidate;
        self.current_term = self.current_term + 1;
        self.voted_for = Some(my_id);
        self.votes_received = 1;
        self.leader_id = None;
    }

    /// Becomes the leader of a cluster with these peers.
    pub fn become_leader(&mut self, my_id: u64, peer_ids: &[u64])
        requires
            old(self)@.last_index() < u64::MAX,
        ensures
            final(self)@ == old(self)@.as_leader(my_id, peer_ids@),
    {
        self.role = RaftRole::Leader;
        self.leader_id = Some(my_id);
        let next: u64 = self.last_log_index() + 1;
        self.next_index.clear();
        self.match_index.clear();
        let ghost base = *self;
        for i in 0..peer_ids.len()
            invariant
                self.next_index@ =~= Map::new(
                    |id: u64| peer_ids@.take(i as int).contains(id),
                    |id: u64| next,
                ),
                self.match_index@ =~= Map::new(
                    |id: u64| peer_ids@.take(i as int).contains(id),
                    |id: u64| 0u64,
                ),
                self@ == (StateView {
                    next_index: self.next_index@,
                    match_index: self.match_index@,
                    ..base@
                }),
        {
            proof {
                lemmas::take_contains(peer_ids@, i as int);
            }
            self.next_index.insert(peer_ids[i], next);
            self.match_index.insert(peer_ids[i], 0);
        }
        assert(peer_ids@.take(peer_ids@.len() as int) =~= peer_ids@);
    }
}

impl RaftState {
    /// Tells whether the log is long and part of it is applied.
    pub fn needs_compaction(&self) -> (r: bool)
        ensures
            r == self@.compactable(),
    {
        self.log.len() > COMPACTION_THRESHOLD && self.get_entry(self.last_applied).is_some()
    }

    /// Replaces the applied prefix of a long log by a snapshot of the state it led to. Returns
    /// whether the log was long enough.
    pub fn compact(&mut self, jobs: Vec<SnapshotJob>, workers: Vec<u64>) -> (r: bool)
        ensures
            r == old(self)@.compactable(),
            final(self)@ == (if r {
                old(self)@.compacted(snapshot_jobs_view(jobs@), workers@)
            } else {
                old(self)@
            }),
    {
        if self.log.len() <= COMPACTION_THRESHOLD {
            return false;
        }
        let last_included_term: u64 = match self.get_entry(self.last_applied) {
            Some(entry) => entry.term,
            None => {
                return false;
            },
        };
        let gone: u64 = self.last_applied - self.log_offset;
        let held: usize = self.log.len();
        assert(gone <= held);
        let suffix = self.log.split_off(gone as usize);
        self.log = suffix;
        assert(self@.log =~= old(self)@.log.skip(gone as int));
        self.log_offset = self.last_applied;
        self.snapshot = Some(
            Snapshot { last_included_index: self.last_applied, last_included_term, jobs, workers },
        );
        true
    }
}

impl Default for RaftState {
    fn default() -> (r: Self)
        ensures
            r@ == initial_state(),
    {
        Self::new()
    }
}

} // verus!
