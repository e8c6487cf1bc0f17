use crate::clock;
use crate::clock::{ms_to_datetime, Timestamp};
use crate::ids;
use crate::ids::{job_id_to_string, parse_job_id};
use crate::lemmas;
use crate::proto;
use crate::proto::command::CommandType;
use crate::proto::{
    AppendEntriesRequest, AppendEntriesResponse, AssignJobCommand, BatchUpdateJobStatusCommand,
    CancelJobCommand, Command as ProtoCommand, CommandMessage, EntryMessage,
    InstallSnapshotRequest, InstallSnapshotResponse, LogEntry as ProtoLogEntry,
    RegisterWorkerCommand, SnapshotJob as ProtoSnapshotJob, SnapshotJobMessage, SubmitJobCommand,
    UpdateJobStatusCommand, UpdateMessage, VoteRequest, VoteResponse,
};
use crate::raft::state;
use crate::raft::state::{
    Command, CommandView, EntryView, JobStatusUpdate, LogEntry, RaftRole, RaftState, Snapshot,
    SnapshotJob, SnapshotJobView, SnapshotView, StateView,
};
use crate::scheduler::JobStatus;
use vstd::prelude::*;

verus! {

// ---------------------------------------------------------------------------
// Statuses
// ---------------------------------------------------------------------------

/// A status on the wire.
pub open spec fn wire_status(status: JobStatus) -> proto::JobStatus {
    match status {
        JobStatus::Pending => proto::JobStatus::Pending,
        JobStatus::Running => proto::JobStatus::Running,
        JobStatus::Completed => proto::JobStatus::Completed,
        JobStatus::Failed => proto::JobStatus::Failed,
        JobStatus::Cancelled => proto::JobStatus::Cancelled,
    }
}

/// The status that one on the wire stands for; an unspecified one counts as waiting.
pub open spec fn status_of_wire(status: proto::JobStatus) -> JobStatus {
    match status {
        proto::JobStatus::Unspecified => JobStatus::Pending,
        proto::JobStatus::Pending => JobStatus::Pending,
        proto::JobStatus::Running => JobStatus::Running,
        proto::JobStatus::Completed => JobStatus::Completed,
        proto::JobStatus::Failed => JobStatus::Failed,
        proto::JobStatus::Cancelled => JobStatus::Cancelled,
    }
}

/// The status that one on the wire stands for; an unspecified one counts as waiting.
pub fn proto_status_to_internal(status: proto::JobStatus) -> (r: JobStatus)
    ensures
        r == status_of_wire(status),
{
    match status {
        proto::JobStatus::Unspecified => JobStatus::Pending,
        proto::JobStatus::Pending => JobStatus::Pending,
        proto::JobStatus::Running => JobStatus::Running,
        proto::JobStatus::Completed => JobStatus::Completed,
        proto::JobStatus::Failed => JobStatus::Failed,
        proto::JobStatus::Cancelled => JobStatus::Cancelled,
    }
}

/// A status on the wire.
pub fn internal_status_to_proto(status: &JobStatus) -> (r: proto::JobStatus)
    ensures
        r == wire_status(*status),
{
    match status {
        JobStatus::Pending => proto::JobStatus::Pending,
        JobStatus::Running => proto::JobStatus::Running,
        JobStatus::Completed => proto::JobStatus::Completed,
        JobStatus::Failed => proto::JobStatus::Failed,
        JobStatus::Cancelled => proto::JobStatus::Cancelled,
    }
}

/// Every status survives the way over the wire, as a value and as a number.
pub proof fn status_round_trip(status: JobStatus)
    ensures
        status_of_wire(wire_status(status)) == status,
        status_of_wire(
            proto::JobStatus::of_number_or_unspecified(wire_status(status).number()),
        ) == status,
{
}

// ---------------------------------------------------------------------------
// Times
// ---------------------------------------------------------------------------

/// Milliseconds of an optional moment.
pub open spec fn opt_millis(t: Option<Timestamp>) -> Option<i64> {
    match t {
        Some(t) => Some(t.millis() as i64),
        None => None,
    }
}

/// The moment that optional milliseconds stand for.
pub open spec fn opt_time(ms: Option<i64>) -> Option<Timestamp> {
    match ms {
        Some(ms) => Some(clock::time_of_millis_or_epoch(ms as int)),
        None => None,
    }
}

/// An optional moment is a moment of the calendar.
pub open spec fn opt_time_wf(t: Option<Timestamp>) -> bool {
    t is Some ==> t->0.wf()
}

/// An optional moment cut to the millisecond.
pub open spec fn opt_to_the_millisecond(t: Option<Timestamp>) -> Option<Timestamp> {
    match t {
        Some(t) => Some(t.to_the_millisecond()),
        None => None,
    }
}

/// Milliseconds of an optional moment.
pub fn millis_of(t: &Option<Timestamp>) -> (r: Option<i64>)
    requires
        opt_time_wf(*t),
    ensures
        r == opt_millis(*t),
        opt_time(r) == opt_to_the_millisecond(*t),
{
    match t {
        Some(t) => {
            proof {
                clock::millis_round_trip(*t);
            }
            Some(t.timestamp_millis())
        },
        None => None,
    }
}

/// The moment that optional milliseconds stand for.
pub fn time_of(ms: &Option<i64>) -> (r: Option<Timestamp>)
    ensures
        r == opt_time(*ms),
        opt_time_wf(r),
{
    match ms {
        Some(ms) => Some(ms_to_datetime(*ms)),
        None => None,
    }
}

// ---------------------------------------------------------------------------
// Commands and log entries
// ---------------------------------------------------------------------------

/// An update on the wire.
pub open spec fn encode_update(u: JobStatusUpdate) -> UpdateMessage {
    UpdateMessage {
        job_id: ids::job_id_text(u.job_id),
        status: wire_status(u.status).number(),
        executed_by: u.executed_by,
        exit_code: u.exit_code,
        completed_at_ms: opt_millis(u.completed_at),
    }
}

/// The update that one on the wire stands for; `None` when its job identifier does not parse.
pub open spec fn decode_update(u: UpdateMessage) -> Option<JobStatusUpdate> {
    match ids::parsed_job_id(u.job_id) {
        Some(job_id) => Some(
            JobStatusUpdate {
                job_id,
                status: status_of_wire(proto::JobStatus::of_number_or_unspecified(u.status)),
                executed_by: u.executed_by,
                exit_code: u.exit_code,
                completed_at: opt_time(u.completed_at_ms),
            },
        ),
        None => None,
    }
}

/// The updates that those on the wire stand for; those whose job identifier does not parse are
/// left out.
pub open spec fn decode_updates(updates: Seq<UpdateMessage>) -> Seq<JobStatusUpdate>
    decreases updates.len(),
{
    if updates.len() == 0 {
        Seq::empty()
    } else {
        let front = decode_updates(updates.drop_last());
        match decode_update(updates.last()) {
            Some(u) => front.push(u),
            None => front,
        }
    }
}

/// A command on the wire.
pub open spec fn encode_command(command: CommandView) -> CommandMessage {
    match command {
        CommandView::SubmitJob { job_id, command, image, created_at } => CommandMessage::SubmitJob {
            job_id: ids::job_id_text(job_id),
            command,
            image,
            created_at_ms: created_at.millis() as i64,
        },
        CommandView::UpdateJobStatus { update } => CommandMessage::UpdateJobStatus {
            update: encode_update(update),
        },
        CommandView::BatchUpdateJobStatus { updates } => CommandMessage::BatchUpdateJobStatus {
            updates: updates.map_values(|u: JobStatusUpdate| encode_update(u)),
        },
        CommandView::AssignJob { job_id, worker_id } => CommandMessage::AssignJob {
            job_id: ids::job_id_text(job_id),
            worker_id,
        },
        CommandView::CancelJob { job_id } => CommandMessage::CancelJob {
            job_id: ids::job_id_text(job_id),
        },
        CommandView::RegisterWorker { worker_id } => CommandMessage::RegisterWorker { worker_id },
        CommandView::Noop => CommandMessage::Nothing,
    }
}

/// The command that one on the wire stands for; `None` when its job identifier does not parse.
pub open spec fn decode_command(command: CommandMessage) -> Option<CommandView> {
    match command {
        CommandMessage::SubmitJob { job_id, command, image, created_at_ms } => {
            match ids::parsed_job_id(job_id) {
                Some(job_id) => Some(
                    CommandView::SubmitJob {
                        job_id,
                        command,
                        image,
                        created_at: clock::time_of_millis_or_epoch(created_at_ms as int),
                    },
                ),
                None => None,
            }
        },
        CommandMessage::UpdateJobStatus { update } => match decode_update(update) {
            Some(update) => Some(CommandView::UpdateJobStatus { update }),
            None => None,
        },
        CommandMessage::BatchUpdateJobStatus { updates } => Some(
            CommandView::BatchUpdateJobStatus { updates: decode_updates(updates) },
        ),
        CommandMessage::AssignJob { job_id, worker_id } => match ids::parsed_job_id(job_id) {
            Some(job_id) => Some(CommandView::AssignJob { job_id, worker_id }),
            None => None,
        },
        CommandMessage::CancelJob { job_id } => match ids::parsed_job_id(job_id) {
            Some(job_id) => Some(CommandView::CancelJob { job_id }),
            None => None,
        },
        CommandMessage::RegisterWorker { worker_id } => Some(
            CommandView::RegisterWorker { worker_id },
        ),
        CommandMessage::Nothing => Some(CommandView::Noop),
    }
}

/// An entry on the wire.
pub open spec fn encode_entry(entry: EntryView) -> EntryMessage {
    EntryMessage { term: entry.term, index: entry.index, command: encode_command(entry.command) }
}

/// The entry that one on the wire stands for; `None` for a malformed one.
pub open spec fn decode_entry(entry: EntryMessage) -> Option<EntryView> {
    match decode_command(entry.command) {
        Some(command) => Some(EntryView { term: entry.term, index: entry.index, command }),
        None => None,
    }
}

/// The entries that those on the wire stand for; malformed ones are left out.
pub open spec fn decode_entries(entries: Seq<EntryMessage>) -> Seq<EntryView>
    decreases entries.len(),
{
    if entries.len() == 0 {
        Seq::empty()
    } else {
        let front = decode_entries(entries.drop_last());
        match decode_entry(entries.last()) {
            Some(e) => front.push(e),
            None => front,
        }
    }
}

/// The moments in an update are moments of the calendar.
pub open spec fn update_wf(u: JobStatusUpdate) -> bool {
    opt_time_wf(u.completed_at)
}

/// The moments in all updates are moments of the calendar.
pub open spec fn updates_wf(updates: Seq<JobStatusUpdate>) -> bool {
    forall|i: int| 0 <= i < updates.len() ==> update_wf(#[trigger] updates[i])
}

/// The moments in a command are moments of the calendar.
pub open spec fn command_wf(command: CommandView) -> bool {
    match command {
        CommandView::SubmitJob { created_at, .. } => created_at.wf(),
        CommandView::UpdateJobStatus { update } => update_wf(update),
        CommandView::BatchUpdateJobStatus { updates } => updates_wf(updates),
        _ => true,
    }
}

/// The moments in all entries are moments of the calendar.
pub open spec fn entries_wf(entries: Seq<EntryView>) -> bool {
    forall|i: int| 0 <= i < entries.len() ==> command_wf((#[trigger] entries[i]).command)
}

/// An update with its moment cut to the millisecond, the precision of the wire.
pub open spec fn update_to_ms(u: JobStatusUpdate) -> JobStatusUpdate {
    JobStatusUpdate { completed_at: opt_to_the_millisecond(u.completed_at), ..u }
}

/// A command with its moments cut to the millisecond, the precision of the wire.
pub open spec fn command_to_ms(command: CommandView) -> CommandView {
    match command {
        CommandView::SubmitJob { job_id, command, image, created_at } => CommandView::SubmitJob {
            job_id,
            command,
            image,
            created_at: created_at.to_the_millisecond(),
        },
        CommandView::UpdateJobStatus { update } => CommandView::UpdateJobStatus {
            update: update_to_ms(update),
        },
        CommandView::BatchUpdateJobStatus { updates } => CommandView::BatchUpdateJobStatus {
            updates: updates.map_values(|u: JobStatusUpdate| update_to_ms(u)),
        },
        _ => command,
    }
}

/// An entry with its moments cut to the millisecond, the precision of the wire.
pub open spec fn entry_to_ms(entry: EntryView) -> EntryView {
    EntryView { command: command_to_ms(entry.command), ..entry }
}

/// An update on the wire. Reading it back gives the update to the millisecond.
pub fn update_to_proto(u: &JobStatusUpdate) -> (r: UpdateJobStatusCommand)
    requires
        update_wf(*u),
    ensures
        r@ == encode_update(*u),
        decode_update(r@) == Some(update_to_ms(*u)),
{
    proof {
        status_round_trip(u.status);
    }
    UpdateJobStatusCommand {
        job_id: job_id_to_string(u.job_id),
        status: internal_status_to_proto(&u.status).to_number(),
        executed_by: u.executed_by,
        exit_code: u.exit_code,
        completed_at_ms: millis_of(&u.completed_at),
    }
}

/// The update that one on the wire stands for; `None` when its job identifier does not parse.
pub fn proto_to_update(u: &UpdateJobStatusCommand) -> (r: Option<JobStatusUpdate>)
    ensures
        r == decode_update(u@),
        r is Some ==> update_wf(r->0),
{
    match parse_job_id(u.job_id.as_str()) {
        Some(job_id) => Some(
            JobStatusUpdate {
                job_id,
                status: proto_status_to_internal(
                    proto::JobStatus::from_number_or_unspecified(u.status),
                ),
                executed_by: u.executed_by,
                exit_code: u.exit_code,
                completed_at: time_of(&u.completed_at_ms),
            },
        ),
        None => None,
    }
}

/// The updates that those on the wire stand for; those whose job identifier does not parse are
/// left out.
pub fn proto_to_updates(updates: &Vec<UpdateJobStatusCommand>) -> (r: Vec<JobStatusUpdate>)
    ensures
        r@ == decode_updates(proto::updates_view(updates@)),
        updates_wf(r@),
{
    let ghost all = proto::updates_view(updates@);
    let mut decoded: Vec<JobStatusUpdate> = Vec::new();
    for i in 0..updates.len()
        invariant
            all == proto::updates_view(updates@),
            decoded@ == decode_updates(all.take(i as int)),
            updates_wf(decoded@),
    {
        assert(all.take(i + 1).drop_last() =~= all.take(i as int));
        assert(all.take(i + 1).last() == updates@[i as int]@);
        match proto_to_update(&updates[i]) {
            Some(u) => decoded.push(u),
            None => {},
        }
    }
    assert(all.take(all.len() as int) =~= all);
    decoded
}

/// Updates on the wire. Reading them back gives the updates to the millisecond.
pub fn updates_to_proto(updates: &Vec<JobStatusUpdate>) -> (r: Vec<UpdateJobStatusCommand>)
    requires
        updates_wf(updates@),
    ensures
        proto::updates_view(r@) == updates@.map_values(|u: JobStatusUpdate| encode_update(u)),
        decode_updates(proto::updates_view(r@)) == updates@.map_values(
            |u: JobStatusUpdate| update_to_ms(u),
        ),
{
    let mut encoded: Vec<UpdateJobStatusCommand> = Vec::new();
    for i in 0..updates.len()
        invariant
            updates_wf(updates@),
            encoded@.len() == i,
            proto::updates_view(encoded@) =~= updates@.take(i as int).map_values(
                |u: JobStatusUpdate| encode_update(u),
            ),
            decode_updates(proto::updates_view(encoded@)) =~= updates@.take(i as int).map_values(
                |u: JobStatusUpdate| update_to_ms(u),
            ),
    {
        let ghost before = proto::updates_view(encoded@);
        let message = update_to_proto(&updates[i]);
        encoded.push(message);
        proof {
            let after = proto::updates_view(encoded@);
            assert(after =~= before.push(message@));
            assert(after.drop_last() =~= before);
            lemmas::map_step(updates@, i as int, |u: JobStatusUpdate| encode_update(u));
            lemmas::map_step(updates@, i as int, |u: JobStatusUpdate| update_to_ms(u));
        }
    }
    assert(updates@.take(updates@.len() as int) =~= updates@);
    encoded
}

/// The log entry that one on the wire stands for; `None` for a malformed one.
pub fn proto_to_log_entry(proto: &ProtoLogEntry) -> (r: Option<LogEntry>)
    ensures
        r is Some <==> decode_entry(proto@) is Some,
        r matches Some(entry) ==> decode_entry(proto@) == Some(entry@) && command_wf(
            entry.command@,
        ),
{
    let command = match &proto.command {
        Some(cmd) => match &cmd.command_type {
            Some(CommandType::SubmitJob(submit)) => {
                match parse_job_id(submit.job_id.as_str()) {
                    Some(job_id) => Command::SubmitJob {
                        job_id,
                        command: submit.command.clone(),
                        image: submit.image.clone(),
                        created_at: ms_to_datetime(submit.created_at_ms),
                    },
                    None => {
                        return None;
                    },
                }
            },
            Some(CommandType::UpdateJobStatus(update)) => match proto_to_update(update) {
                Some(u) => Command::UpdateJobStatus {
                    job_id: u.job_id,
                    status: u.status,
                    executed_by: u.executed_by,
                    exit_code: u.exit_code,
                    completed_at: u.completed_at,
                },
                None => {
                    return None;
                },
            },
            Some(CommandType::BatchUpdateJobStatus(batch)) => Command::BatchUpdateJobStatus {
                updates: proto_to_updates(&batch.updates),
            },
            Some(CommandType::AssignJob(assign)) => match parse_job_id(assign.job_id.as_str()) {
                Some(job_id) => Command::AssignJob { job_id, worker_id: assign.worker_id },
                None => {
                    return None;
                },
            },
            Some(CommandType::CancelJob(cancel)) => match parse_job_id(cancel.job_id.as_str()) {
                Some(job_id) => Command::CancelJob { job_id },
                None => {
                    return None;
                },
            },
            Some(CommandType::RegisterWorker(register)) => Command::RegisterWorker {
                worker_id: register.worker_id,
            },
            None => Command::Noop,
        },
        None => Command::Noop,
    };
    Some(LogEntry { term: proto.term, index: proto.index, command })
}

/// A command on the wire. Reading it back gives the command to the millisecond.
pub fn command_to_proto(command: &Command) -> (r: Option<ProtoCommand>)
    requires
        command_wf(command@),
    ensures
        proto::command_message(r) == encode_command(command@),
        decode_command(proto::command_message(r)) == Some(command_to_ms(command@)),
        r is None <==> command@ is Noop,
{
    let command_type = match command {
        Command::SubmitJob { job_id, command, image, created_at } => {
            proof {
                clock::millis_round_trip(*created_at);
            }
            CommandType::SubmitJob(
                SubmitJobCommand {
                    job_id: job_id_to_string(*job_id),
                    command: command.clone(),
                    image: image.clone(),
                    created_at_ms: created_at.timestamp_millis(),
                },
            )
        },
        Command::UpdateJobStatus { job_id, status, executed_by, exit_code, completed_at } => {
            CommandType::UpdateJobStatus(
                update_to_proto(
                    &JobStatusUpdate {
                        job_id: *job_id,
                        status: *status,
                        executed_by: *executed_by,
                        exit_code: *exit_code,
                        completed_at: *completed_at,
                    },
                ),
            )
        },
        Command::BatchUpdateJobStatus { updates } => CommandType::BatchUpdateJobStatus(
            BatchUpdateJobStatusCommand { updates: updates_to_proto(updates) },
        ),
        Command::AssignJob { job_id, worker_id } => CommandType::AssignJob(
            AssignJobCommand { job_id: job_id_to_string(*job_id), worker_id: *worker_id },
        ),
        Command::CancelJob { job_id } => CommandType::CancelJob(
            CancelJobCommand { job_id: job_id_to_string(*job_id) },
        ),
        Command::RegisterWorker { worker_id } => CommandType::RegisterWorker(
            RegisterWorkerCommand { worker_id: *worker_id },
        ),
        Command::Noop => {
            return None;
        },
    };
    Some(ProtoCommand { command_type: Some(command_type) })
}

/// A log entry on the wire. Reading it back gives the entry, with moments to the millisecond.
pub fn log_entry_to_proto(entry: &LogEntry) -> (r: ProtoLogEntry)
    requires
        command_wf(entry.command@),
    ensures
        r@ == encode_entry(entry@),
        decode_entry(r@) == Some(entry_to_ms(entry@)),
        r.command is None <==> entry.command@ is Noop,
{
    ProtoLogEntry {
        term: entry.term,
        index: entry.index,
        command: command_to_proto(&entry.command),
    }
}

/// The entries that those on the wire stand for; malformed ones are left out.
pub fn proto_to_log_entries(entries: &Vec<ProtoLogEntry>) -> (r: Vec<LogEntry>)
    ensures
        state::entries_view(r@) == decode_entries(proto::entries_message(entries@)),
        entries_wf(state::entries_view(r@)),
{
    let ghost all = proto::entries_message(entries@);
    let mut decoded: Vec<LogEntry> = Vec::new();
    for i in 0..entries.len()
        invariant
            all == proto::entries_message(entries@),
            state::entries_view(decoded@) == decode_entries(all.take(i as int)),
            entries_wf(state::entries_view(decoded@)),
    {
        assert(all.take(i + 1).drop_last() =~= all.take(i as int));
        assert(all.take(i + 1).last() == entries@[i as int]@);
        let ghost before = decoded@;
        match proto_to_log_entry(&entries[i]) {
            Some(entry) => {
                decoded.push(entry);
                assert(state::entries_view(decoded@) =~= state::entries_view(before).push(entry@));
            },
            None => {},
        }
    }
    assert(all.take(all.len() as int) =~= all);
    decoded
}

// ---------------------------------------------------------------------------
// RequestVote
// ---------------------------------------------------------------------------

/// The state with the term of a message that is ahead of it.
pub open spec fn with_term_of(s: StateView, term: u64) -> StateView {
    if term > s.current_term {
        s.as_follower(term)
    } else {
        s
    }
}

/// A node in this state grants the vote: the candidate's term is not behind, no other candidate
/// got the vote in this term, and the candidate's log is up to date.
pub open spec fn grants_vote(s: StateView, req: VoteRequest) -> bool {
    let s = with_term_of(s, req.term);
    &&& req.term >= s.current_term
    &&& s.voted_for is None || s.voted_for == Some(req.candidate_id)
    &&& s.up_to_date(req.last_log_index, req.last_log_term)
}

/// The state after a request for a vote.
pub open spec fn after_vote_request(s: StateView, req: VoteRequest) -> StateView {
    let t = with_term_of(s, req.term);
    if grants_vote(s, req) {
        StateView { voted_for: Some(req.candidate_id), ..t }
    } else {
        t
    }
}

/// Handles a request for a vote.
pub fn handle_request_vote(state: &mut RaftState, req: &VoteRequest, _my_id: u64) -> (r: Result<
    VoteResponse,
    String,
>)
    ensures
        final(state)@ == after_vote_request(old(state)@, *req),
        r == Ok::<VoteResponse, String>(
            VoteResponse {
                term: final(state)@.current_term,
                vote_granted: grants_vote(old(state)@, *req),
            },
        ),
{
    if req.term > state.current_term {
        state.become_follower(req.term);
    }
    let voted_for_another = match state.voted_for {
        Some(id) => id != req.candidate_id,
        None => false,
    };
    let vote_granted = if req.term < state.current_term {
        false
    } else if voted_for_another {
        false
    } else if !state.is_log_up_to_date(req.last_log_index, req.last_log_term) {
        false
    } else {
        state.voted_for = Some(req.candidate_id);
        true
    };
    Ok(VoteResponse { term: state.current_term, vote_granted })
}

// ---------------------------------------------------------------------------
// AppendEntries
// ---------------------------------------------------------------------------

/// The state of a node that has accepted `leader_id` as leader of `term`.
pub open spec fn follows(s: StateView, term: u64, leader_id: u64) -> StateView {
    let t = with_term_of(s, term);
    let t = if t.role is Follower {
        t
    } else {
        t.stepped_down()
    };
    StateView { leader_id: Some(leader_id), ..t }
}

/// The log agrees with a leader whose entry at `index` has `term`. Compacted entries are
/// committed, so a leader has the same; of the last of them the term is compared.
pub open spec fn agrees_at(s: StateView, index: u64, term: u64) -> bool {
    if index < s.log_offset || index == 0 {
        true
    } else if index == s.log_offset {
        s.snapshot is Some && s.snapshot->0.last_included_term == term
    } else {
        s.has_entry(index as int) && s.entry(index as int).term == term
    }
}

/// The index at which the entries of a request end.
pub open spec fn end_of(request: proto::AppendMessage) -> nat {
    request.prev_log_index as nat + request.entries.len()
}

/// The log has the entry: it is compacted, or an entry of the same term stands at its index.
pub open spec fn holds_entry(s: StateView, e: EntryView) -> bool {
    e.index <= s.log_offset || (s.has_entry(e.index as int) && s.entry(e.index as int).term
        == e.term)
}

/// What of the entries is news: from the first one on that the log does not have.
pub open spec fn news(s: StateView, entries: Seq<EntryView>) -> Seq<EntryView>
    decreases entries.len(),
{
    if entries.len() > 0 && holds_entry(s, entries[0]) {
        news(s, entries.skip(1))
    } else {
        entries
    }
}

/// The log of a follower that agrees with the leader, after entries arrived. What the log has of
/// them stays, with all that follows it; at the first one that it does not have, the log is cut
/// off and goes on with the entries from there.
pub open spec fn replicated_log(s: StateView, messages: Seq<EntryMessage>) -> Seq<EntryView> {
    let fresh = news(s, decode_entries(messages));
    if fresh.len() == 0 {
        s.log
    } else {
        s.truncated_log(fresh[0].index as int) + fresh
    }
}

/// What is news is a suffix of the entries, behind those that the log has.
pub proof fn news_is_a_suffix(s: StateView, entries: Seq<EntryView>) -> (k: int)
    ensures
        0 <= k <= entries.len(),
        news(s, entries) == entries.skip(k),
        forall|i: int| 0 <= i < k ==> holds_entry(s, #[trigger] entries[i]),
        k < entries.len() ==> !holds_entry(s, entries[k]),
    decreases entries.len(),
{
    if entries.len() > 0 && holds_entry(s, entries[0]) {
        let rest = entries.skip(1);
        let k = news_is_a_suffix(s, rest);
        assert(rest.skip(k) =~= entries.skip(k + 1));
        assert forall|i: int| 0 <= i < k + 1 implies holds_entry(s, #[trigger] entries[i]) by {
            if i > 0 {
                assert(rest[i - 1] == entries[i]);
            }
        }
        if k < rest.len() {
            assert(rest[k] == entries[k + 1]);
        }
        k + 1
    } else {
        assert(entries.skip(0) =~= entries);
        0
    }
}

/// The commit index after a leader announced one that lies ahead: that one, or the last index of
/// the log where the log does not reach so far.
pub open spec fn followed_commit(s: StateView, leader_commit: u64) -> u64 {
    if leader_commit > s.commit_index {
        if leader_commit <= s.last_index() {
            leader_commit
        } else {
            s.last_index()
        }
    } else {
        s.commit_index
    }
}

/// The node accepts the entries: the leader's term is not behind and the logs agree at the entry
/// before.
pub open spec fn accepts_entries(s: StateView, req: proto::AppendMessage) -> bool {
    let t = with_term_of(s, req.term);
    req.term >= t.current_term && agrees_at(t, req.prev_log_index, req.prev_log_term)
}

/// The state after entries from a leader.
pub open spec fn after_append_entries(s: StateView, req: proto::AppendMessage) -> StateView {
    let t = with_term_of(s, req.term);
    if req.term < t.current_term {
        t
    } else {
        let f = follows(s, req.term, req.leader_id);
        if agrees_at(f, req.prev_log_index, req.prev_log_term) {
            let g = StateView { log: replicated_log(f, req.entries), ..f };
            StateView { commit_index: followed_commit(g, req.leader_commit), ..g }
        } else if f.has_entry(req.prev_log_index as int) {
            StateView { log: f.truncated_log(req.prev_log_index as int), ..f }
        } else {
            f
        }
    }
}

/// Tells whether the log agrees with a leader whose entry at `index` has `term`.
fn log_agrees_at(state: &RaftState, index: u64, term: u64) -> (r: bool)
    ensures
        r == agrees_at(state@, index, term),
{
    if index < state.log_offset || index == 0 {
        true
    } else if index == state.log_offset {
        match &state.snapshot {
            Some(snapshot) => snapshot.last_included_term == term,
            None => false,
        }
    } else {
        match state.get_entry(index) {
            Some(entry) => entry.term == term,
            None => false,
        }
    }
}

/// Tells whether the log has the entry.
fn log_holds(state: &RaftState, entry: &LogEntry) -> (r: bool)
    ensures
        r == holds_entry(state@, entry@),
{
    if entry.index <= state.log_offset {
        return true;
    }
    match state.get_entry(entry.index) {
        Some(own) => own.term == entry.term,
        None => false,
    }
}

/// Takes over what of the entries is news.
fn take_over(state: &mut RaftState, entries: Vec<LogEntry>)
    ensures
        final(state)@ == (StateView {
            log: ({
                let fresh = news(old(state)@, state::entries_view(entries@));
                if fresh.len() == 0 {
                    old(state)@.log
                } else {
                    old(state)@.truncated_log(fresh[0].index as int) + fresh
                }
            }),
            ..old(state)@
        }),
{
    let ghost all = state::entries_view(entries@);
    let mut entries = entries;
    let mut known: usize = 0;
    assert(all.skip(0) =~= all);
    while known < entries.len() && log_holds(state, &entries[known])
        invariant
            known <= entries@.len(),
            all == state::entries_view(entries@),
            *state == *old(state),
            news(state@, all) == news(state@, all.skip(known as int)),
        decreases entries@.len() - known,
    {
        assert(all.skip(known as int)[0] == entries@[known as int]@);
        assert(all.skip(known as int).skip(1) =~= all.skip(known + 1));
        known = known + 1;
    }
    if known < entries.len() {
        assert(all.skip(known as int)[0] == entries@[known as int]@);
        let from: u64 = entries[known].index;
        let fresh = entries.split_off(known);
        assert(state::entries_view(fresh@) =~= all.skip(known as int));
        state.truncate_and_append(from, fresh);
    } else {
        assert(all.skip(known as int).len() == 0);
    }
}

/// Handles entries, or a heartbeat, from a leader.
pub fn handle_append_entries(
    state: &mut RaftState,
    req: &AppendEntriesRequest,
    _my_id: u64,
) -> (r: Result<AppendEntriesResponse, String>)
    ensures
        final(state)@ == after_append_entries(old(state)@, req@),
        r == Ok::<AppendEntriesResponse, String>(
            AppendEntriesResponse {
                term: final(state)@.current_term,
                success: accepts_entries(old(state)@, req@),
                match_index: final(state)@.last_index(),
            },
        ),
{
    if req.term > state.current_term {
        state.become_follower(req.term);
    }
    if req.term < state.current_term {
        return Ok(
            AppendEntriesResponse {
                term: state.current_term,
                success: false,
                match_index: state.last_log_index(),
            },
        );
    }
    if state.role != RaftRole::Follower {
        state.step_down();
    }
    state.leader_id = Some(req.leader_id);
    if !log_agrees_at(state, req.prev_log_index, req.prev_log_term) {
        if state.get_entry(req.prev_log_index).is_some() {
            state.truncate_log(req.prev_log_index);
        }
        return Ok(
            AppendEntriesResponse {
                term: state.current_term,
                success: false,
                match_index: state.last_log_index(),
            },
        );
    }
    take_over(state, proto_to_log_entries(&req.entries));
    if req.leader_commit > state.commit_index {
        let last: u64 = state.last_log_index();
        state.commit_index =
        if req.leader_commit <= last {
            req.leader_commit
        } else {
            last
        };
    }
    Ok(
        AppendEntriesResponse {
            term: state.current_term,
            success: true,
            match_index: state.last_log_index(),
        },
    )
}

// ---------------------------------------------------------------------------
// InstallSnapshot
// ---------------------------------------------------------------------------

/// A job of a snapshot on the wire.
pub open spec fn encode_snapshot_job(job: SnapshotJobView) -> SnapshotJobMessage {
    SnapshotJobMessage {
        job_id: ids::job_id_text(job.id),
        command: job.command,
        image: job.image,
        status: wire_status(job.status).number(),
        assigned_worker: job.assigned_worker,
        executed_by: job.executed_by,
        exit_code: job.exit_code,
        created_at_ms: job.created_at.millis() as i64,
        completed_at_ms: opt_millis(job.completed_at),
    }
}

/// The job that one on the wire stands for; `None` when its identifier does not parse.
pub open spec fn decode_snapshot_job(job: SnapshotJobMessage) -> Option<SnapshotJobView> {
    match ids::parsed_job_id(job.job_id) {
        Some(id) => Some(
            SnapshotJobView {
                id,
                command: job.command,
                image: job.image,
                status: status_of_wire(proto::JobStatus::of_number_or_unspecified(job.status)),
                assigned_worker: job.assigned_worker,
                executed_by: job.executed_by,
                exit_code: job.exit_code,
                created_at: clock::time_of_millis_or_epoch(job.created_at_ms as int),
                completed_at: opt_time(job.completed_at_ms),
            },
        ),
        None => None,
    }
}

/// The jobs that those on the wire stand for; those whose identifier does not parse are left out.
pub open spec fn decode_snapshot_jobs(jobs: Seq<SnapshotJobMessage>) -> Seq<SnapshotJobView>
    decreases jobs.len(),
{
    if jobs.len() == 0 {
        Seq::empty()
    } else {
        let front = decode_snapshot_jobs(jobs.drop_last());
        match decode_snapshot_job(jobs.last()) {
            Some(job) => front.push(job),
            None => front,
        }
    }
}

/// The moments in a job of a snapshot are moments of the calendar.
pub open spec fn snapshot_job_wf(job: SnapshotJobView) -> bool {
    job.created_at.wf() && opt_time_wf(job.completed_at)
}

/// The moments in all jobs of a snapshot are moments of the calendar.
pub open spec fn snapshot_wf(snapshot: SnapshotView) -> bool {
    forall|i: int| 0 <= i < snapshot.jobs.len() ==> snapshot_job_wf(#[trigger] snapshot.jobs[i])
}

/// A job of a snapshot with its moments cut to the millisecond, the precision of the wire.
pub open spec fn snapshot_job_to_ms(job: SnapshotJobView) -> SnapshotJobView {
    SnapshotJobView {
        created_at: job.created_at.to_the_millisecond(),
        completed_at: opt_to_the_millisecond(job.completed_at),
        ..job
    }
}

/// The snapshot that a message carries.
pub open spec fn decode_snapshot(req: proto::SnapshotMessage) -> SnapshotView {
    SnapshotView {
        last_included_index: req.last_included_index,
        last_included_term: req.last_included_term,
        jobs: decode_snapshot_jobs(req.jobs),
        workers: req.workers,
    }
}

/// A job of a snapshot on the wire. Reading it back gives the job to the millisecond.
pub fn snapshot_job_to_proto(job: &SnapshotJob) -> (r: ProtoSnapshotJob)
    requires
        snapshot_job_wf(job@),
    ensures
        r@ == encode_snapshot_job(job@),
        decode_snapshot_job(r@) == Some(snapshot_job_to_ms(job@)),
{
    proof {
        status_round_trip(job.status);
        clock::millis_round_trip(job.created_at);
    }
    ProtoSnapshotJob {
        job_id: job_id_to_string(job.id),
        command: job.command.clone(),
        image: job.image.clone(),
        status: internal_status_to_proto(&job.status).to_number(),
        assigned_worker: job.assigned_worker,
        executed_by: job.executed_by,
        exit_code: job.exit_code,
        created_at_ms: job.created_at.timestamp_millis(),
        completed_at_ms: millis_of(&job.completed_at),
    }
}

/// The job that one on the wire stands for; `None` when its identifier does not parse.
pub fn proto_to_snapshot_job(job: &ProtoSnapshotJob) -> (r: Option<SnapshotJob>)
    ensures
        r is Some <==> decode_snapshot_job(job@) is Some,
        r matches Some(j) ==> decode_snapshot_job(job@) == Some(j@) && snapshot_job_wf(j@),
{
    match parse_job_id(job.job_id.as_str()) {
        Some(id) => Some(
            SnapshotJob {
                id,
                command: job.command.clone(),
                image: job.image.clone(),
                status: proto_status_to_internal(
                    proto::JobStatus::from_number_or_unspecified(job.status),
                ),
                assigned_worker: job.assigned_worker,
                executed_by: job.executed_by,
                exit_code: job.exit_code,
                created_at: ms_to_datetime(job.created_at_ms),
                completed_at: time_of(&job.completed_at_ms),
            },
        ),
        None => None,
    }
}

/// The snapshot that a message carries.
pub fn proto_to_snapshot(req: &InstallSnapshotRequest) -> (r: Snapshot)
    ensures
        r@ == decode_snapshot(req@),
        snapshot_wf(r@),
{
    let ghost all = proto::snapshot_jobs_message(req.jobs@);
    let mut jobs: Vec<SnapshotJob> = Vec::new();
    for i in 0..req.jobs.len()
        invariant
            all == proto::snapshot_jobs_message(req.jobs@),
            state::snapshot_jobs_view(jobs@) == decode_snapshot_jobs(all.take(i as int)),
            forall|k: int| 0 <= k < jobs@.len() ==> snapshot_job_wf((#[trigger] jobs@[k])@),
    {
        assert(all.take(i + 1).drop_last() =~= all.take(i as int));
        assert(all.take(i + 1).last() == req.jobs@[i as int]@);
        let ghost before = jobs@;
        match proto_to_snapshot_job(&req.jobs[i]) {
            Some(job) => {
                jobs.push(job);
                assert(state::snapshot_jobs_view(jobs@) =~= state::snapshot_jobs_view(before).push(
                    job@,
                ));
            },
            None => {},
        }
    }
    assert(all.take(all.len() as int) =~= all);
    let workers = req.workers.clone();
    assert(workers@ =~= req.workers@);
    Snapshot {
        last_included_index: req.last_included_index,
        last_included_term: req.last_included_term,
        jobs,
        workers,
    }
}

/// A snapshot from a leader, as a message.
pub fn snapshot_to_proto(snapshot: &Snapshot, term: u64, leader_id: u64) -> (r:
    InstallSnapshotRequest)
    requires
        snapshot_wf(snapshot@),
    ensures
        r@ == encode_snapshot(snapshot@, term, leader_id),
        decode_snapshot(r@) == snapshot_to_ms(snapshot@),
{
    let mut jobs: Vec<ProtoSnapshotJob> = Vec::new();
    let ghost all = snapshot@.jobs;
    for i in 0..snapshot.jobs.len()
        invariant
            snapshot_wf(snapshot@),
            all == snapshot@.jobs,
            jobs@.len() == i,
            proto::snapshot_jobs_message(jobs@) =~= all.take(i as int).map_values(
                |job: SnapshotJobView| encode_snapshot_job(job),
            ),
            decode_snapshot_jobs(proto::snapshot_jobs_message(jobs@)) =~= all.take(
                i as int,
            ).map_values(|job: SnapshotJobView| snapshot_job_to_ms(job)),
    {
        let ghost before = proto::snapshot_jobs_message(jobs@);
        assert(all[i as int] == snapshot.jobs@[i as int]@);
        let message = snapshot_job_to_proto(&snapshot.jobs[i]);
        jobs.push(message);
        proof {
            let after = proto::snapshot_jobs_message(jobs@);
            assert(after =~= before.push(message@));
            assert(after.drop_last() =~= before);
            lemmas::map_step(all, i as int, |job: SnapshotJobView| encode_snapshot_job(job));
            lemmas::map_step(all, i as int, |job: SnapshotJobView| snapshot_job_to_ms(job));
        }
    }
    assert(all.take(all.len() as int) =~= all);
    let workers = snapshot.workers.clone();
    assert(workers@ =~= snapshot.workers@);
    InstallSnapshotRequest {
        term,
        leader_id,
        last_included_index: snapshot.last_included_index,
        last_included_term: snapshot.last_included_term,
        jobs,
        workers,
    }
}

/// A snapshot from a leader, as a message.
pub open spec fn encode_snapshot(
    snapshot: SnapshotView,
    term: u64,
    leader_id: u64,
) -> proto::SnapshotMessage {
    proto::SnapshotMessage {
        term,
        leader_id,
        last_included_index: snapshot.last_included_index,
        last_included_term: snapshot.last_included_term,
        jobs: snapshot.jobs.map_values(|job: SnapshotJobView| encode_snapshot_job(job)),
        workers: snapshot.workers,
    }
}

/// A snapshot with its moments cut to the millisecond, the precision of the wire.
pub open spec fn snapshot_to_ms(snapshot: SnapshotView) -> SnapshotView {
    SnapshotView {
        jobs: snapshot.jobs.map_values(|job: SnapshotJobView| snapshot_job_to_ms(job)),
        ..snapshot
    }
}

/// The log after a snapshot took the place of its prefix: what follows the last compacted entry
/// stays where the log holds that entry, otherwise nothing.
pub open spec fn log_past_snapshot(s: StateView, index: u64, term: u64) -> Seq<EntryView> {
    if s.has_entry(index as int) && s.entry(index as int).term == term {
        s.log.skip(index - s.log_offset)
    } else {
        Seq::empty()
    }
}

/// A snapshot from a leader brings something new: the leader's term is not behind, and the
/// snapshot reaches past what this node has committed.
pub open spec fn snapshot_is_news(s: StateView, req: proto::SnapshotMessage) -> bool {
    let t = with_term_of(s, req.term);
    &&& req.term >= t.current_term
    &&& req.last_included_index > s.log_offset
    &&& req.last_included_index > s.commit_index
}

/// The state after a snapshot from a leader.
pub open spec fn after_install_snapshot(s: StateView, req: proto::SnapshotMessage) -> StateView {
    let t = with_term_of(s, req.term);
    if req.term < t.current_term {
        t
    } else {
        let f = follows(s, req.term, req.leader_id);
        if snapshot_is_news(s, req) {
            StateView {
                log: log_past_snapshot(f, req.last_included_index, req.last_included_term),
                log_offset: req.last_included_index,
                snapshot: Some(decode_snapshot(req)),
                commit_index: req.last_included_index,
                last_applied: req.last_included_index,
                ..f
            }
        } else {
            f
        }
    }
}

/// Handles a snapshot from a leader.
pub fn handle_install_snapshot(
    state: &mut RaftState,
    req: &InstallSnapshotRequest,
    _my_id: u64,
) -> (r: Result<InstallSnapshotResponse, String>)
    ensures
        final(state)@ == after_install_snapshot(old(state)@, req@),
        r == Ok::<InstallSnapshotResponse, String>(
            InstallSnapshotResponse { term: final(state)@.current_term },
        ),
        snapshot_is_news(old(state)@, req@) ==> snapshot_wf(final(state)@.snapshot->0),
{
    if req.term > state.current_term {
        state.become_follower(req.term);
    }
    if req.term < state.current_term {
        return Ok(InstallSnapshotResponse { term: state.current_term });
    }
    if state.role != RaftRole::Follower {
        state.step_down();
    }
    state.leader_id = Some(req.leader_id);
    if req.last_included_index > state.log_offset && req.last_included_index > state.commit_index {
        let ghost f = state@;
        let keeps_suffix = match state.get_entry(req.last_included_index) {
            Some(entry) => entry.term == req.last_included_term,
            None => false,
        };
        if keeps_suffix {
            let gone: u64 = req.last_included_index - state.log_offset;
            let held: usize = state.log.len();
            assert(gone <= held);
            let suffix = state.log.split_off(gone as usize);
            state.log = suffix;
        } else {
            state.log.clear();
        }
        assert(state@.log =~= log_past_snapshot(
            f,
            req.last_included_index,
            req.last_included_term,
        ));
        state.log_offset = req.last_included_index;
        state.snapshot = Some(proto_to_snapshot(req));
        state.commit_index = req.last_included_index;
        state.last_applied = req.last_included_index;
    }
    Ok(InstallSnapshotResponse { term: state.current_term })
}

} // verus!
