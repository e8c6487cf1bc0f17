//! What the wire keeps of statuses, moments, updates, commands and snapshots.

use crate::clock;
use crate::clock::Timestamp;
use crate::ids;
use crate::ids::JobId;
use crate::proto;
use crate::proto::{EntryMessage, UpdateMessage};
use crate::raft::node;
use crate::raft::rpc;
use crate::raft::state::{
    CommandView, EntryView, JobStatusUpdate, SnapshotJobView, SnapshotView,
};
use crate::raft::storage::PersistedState;
use crate::scheduler::job::JobStatus;
use vstd::prelude::*;

verus! {

/// Both are the same moment but for what lies below the millisecond, which is cut off in `cut`.
pub open spec fn cut_to_the_millisecond(cut: Timestamp, whole: Timestamp) -> bool {
    &&& cut.seconds == whole.seconds
    &&& cut.nanos <= whole.nanos < cut.nanos + 1_000_000
    &&& cut.nanos as int % 1_000_000 == 0
}

/// The same of moments that may be missing.
pub open spec fn both_cut(cut: Option<Timestamp>, whole: Option<Timestamp>) -> bool {
    &&& cut is Some <==> whole is Some
    &&& whole is Some ==> cut_to_the_millisecond(cut->0, whole->0)
}

/// Identifiers are read back from their text.
pub open spec fn identifiers_are_read_back() -> bool {
    forall|id: JobId| #[trigger] ids::parsed_job_id(ids::job_id_text(id)) == Some(id)
}

/// Statuses have the numbers one to five on the wire, and each is read back from its own.
pub proof fn statuses_have_their_numbers(status: JobStatus)
    ensures
        rpc::wire_status(status).number() == (match status {
            JobStatus::Pending => 1i32,
            JobStatus::Running => 2i32,
            JobStatus::Completed => 3i32,
            JobStatus::Failed => 4i32,
            JobStatus::Cancelled => 5i32,
        }),
        rpc::status_of_wire(
            proto::JobStatus::of_number_or_unspecified(rpc::wire_status(status).number()),
        ) == status,
{
}

/// A number that stands for no status reads as that of a job that waits.
pub proof fn other_numbers_read_as_waiting(number: i32)
    requires
        number < 1 || number > 5,
    ensures
        rpc::status_of_wire(proto::JobStatus::of_number_or_unspecified(number)) is Pending,
{
}

/// Milliseconds count from the epoch, rounded down, and lead back to the moment as far as they go.
pub proof fn milliseconds_lead_back(t: Timestamp)
    requires
        t.wf(),
    ensures
        t.millis() * 1_000_000 <= t.seconds * 1_000_000_000 + t.nanos < (t.millis() + 1)
            * 1_000_000,
        cut_to_the_millisecond(clock::time_of_millis_or_epoch(t.millis()), t),
        cut_to_the_millisecond(t.to_the_millisecond(), t),
{
}

/// Of two moments the earlier one is that with fewer seconds or, in the same second, with fewer
/// nanoseconds.
pub proof fn moments_are_ordered(a: Timestamp, b: Timestamp)
    requires
        a.wf(),
        b.wf(),
    ensures
        a.at_or_before(b) <==> a.seconds * 1_000_000_000 + a.nanos <= b.seconds * 1_000_000_000
            + b.nanos,
{
}

/// Time passes in whole milliseconds, rounded down, and not at all backwards.
pub proof fn time_passes_in_milliseconds(since: u128, now: u128)
    ensures
        now >= since ==> clock::elapsed_ms(since, now) * 1_000_000 <= now - since < (
        clock::elapsed_ms(since, now) + 1) * 1_000_000,
        now < since ==> clock::elapsed_ms(since, now) == 0,
{
}

/// An update that is sent is read back as it was, its moment to the millisecond, where its
/// identifier is.
pub proof fn updates_arrive_as_sent(u: JobStatusUpdate)
    requires
        rpc::update_wf(u),
    ensures
        ids::parsed_job_id(ids::job_id_text(u.job_id)) == Some(u.job_id) ==> ({
            let sent = rpc::encode_update(u);
            let back = rpc::decode_update(sent);
            &&& back is Some
            &&& back->0.job_id == u.job_id
            &&& back->0.status == u.status
            &&& back->0.executed_by == u.executed_by
            &&& back->0.exit_code == u.exit_code
            &&& both_cut(back->0.completed_at, u.completed_at)
            &&& back->0 == rpc::update_to_ms(u)
            &&& sent.executed_by == u.executed_by
            &&& sent.exit_code == u.exit_code
        }),
{
    statuses_have_their_numbers(u.status);
    if u.completed_at is Some {
        milliseconds_lead_back(u.completed_at->0);
    }
}

/// A command that is sent is read back as the same kind of command with the same content, moments
/// to the millisecond, where identifiers are.
pub proof fn commands_arrive_as_sent(command: CommandView)
    requires
        rpc::command_wf(command),
    ensures
        identifiers_are_read_back() ==> ({
            let back = rpc::decode_command(rpc::encode_command(command));
            &&& back is Some
            &&& match command {
                CommandView::SubmitJob { job_id, command, image, created_at } => {
                    &&& back->0 is SubmitJob
                    &&& back->0->SubmitJob_job_id == job_id
                    &&& back->0->SubmitJob_command == command
                    &&& back->0->SubmitJob_image == image
                    &&& cut_to_the_millisecond(back->0->SubmitJob_created_at, created_at)
                },
                CommandView::UpdateJobStatus { update } => {
                    &&& back->0 is UpdateJobStatus
                    &&& back->0->update.job_id == update.job_id
                    &&& back->0->update.status == update.status
                    &&& back->0->update.executed_by == update.executed_by
                    &&& back->0->update.exit_code == update.exit_code
                    &&& both_cut(back->0->update.completed_at, update.completed_at)
                },
                CommandView::BatchUpdateJobStatus { updates } => {
                    &&& back->0 is BatchUpdateJobStatus
                    &&& back->0->updates.len() == updates.len()
                    &&& forall|i: int|
                        0 <= i < updates.len() ==> {
                            let u = #[trigger] back->0->updates[i];
                            &&& u.job_id == updates[i].job_id
                            &&& u.status == updates[i].status
                            &&& u.executed_by == updates[i].executed_by
                            &&& u.exit_code == updates[i].exit_code
                            &&& both_cut(u.completed_at, updates[i].completed_at)
                        }
                },
                _ => back->0 == command,
            }
            &&& back->0 == rpc::command_to_ms(command)
        }),
{
    match command {
        CommandView::SubmitJob { job_id, command, image, created_at } => {
            milliseconds_lead_back(created_at);
        },
        CommandView::UpdateJobStatus { update } => {
            updates_arrive_as_sent(update);
        },
        CommandView::BatchUpdateJobStatus { updates } => {
            if identifiers_are_read_back() {
                batches_arrive_as_sent(updates);
            }
            let back = rpc::decode_updates(
                updates.map_values(|u: JobStatusUpdate| rpc::encode_update(u)),
            );
            assert forall|i: int| identifiers_are_read_back() && 0 <= i < updates.len() implies {
                let u = #[trigger] back[i];
                &&& u.job_id == updates[i].job_id
                &&& u.status == updates[i].status
                &&& u.executed_by == updates[i].executed_by
                &&& u.exit_code == updates[i].exit_code
                &&& both_cut(u.completed_at, updates[i].completed_at)
            } by {
                assert(rpc::update_wf(updates[i]));
                assert(ids::parsed_job_id(ids::job_id_text(updates[i].job_id)) == Some(
                    updates[i].job_id,
                ));
                updates_arrive_as_sent(updates[i]);
            }
        },
        _ => {},
    }
}

proof fn batches_arrive_as_sent(updates: Seq<JobStatusUpdate>)
    requires
        rpc::updates_wf(updates),
        identifiers_are_read_back(),
    ensures
        rpc::decode_updates(updates.map_values(|u: JobStatusUpdate| rpc::encode_update(u)))
            == updates.map_values(|u: JobStatusUpdate| rpc::update_to_ms(u)),
    decreases updates.len(),
{
    let sent = updates.map_values(|u: JobStatusUpdate| rpc::encode_update(u));
    if updates.len() > 0 {
        let front = updates.drop_last();
        assert(rpc::updates_wf(front)) by {
            assert forall|i: int| 0 <= i < front.len() implies rpc::update_wf(
                #[trigger] front[i],
            ) by {
                assert(rpc::update_wf(updates[i]));
            }
        }
        batches_arrive_as_sent(front);
        assert(sent.drop_last() =~= front.map_values(
            |u: JobStatusUpdate| rpc::encode_update(u),
        ));
        let last = updates.last();
        assert(rpc::update_wf(updates[updates.len() - 1]));
        assert(ids::parsed_job_id(ids::job_id_text(last.job_id)) == Some(last.job_id));
        updates_arrive_as_sent(last);
        assert(rpc::decode_updates(sent) =~= updates.map_values(
            |u: JobStatusUpdate| rpc::update_to_ms(u),
        ));
    } else {
        assert(rpc::decode_updates(sent) =~= updates.map_values(
            |u: JobStatusUpdate| rpc::update_to_ms(u),
        ));
    }
}

/// An entry is sent with its term and index, and they are read back with it.
pub proof fn entries_keep_their_place(e: EntryView, message: EntryMessage)
    ensures
        rpc::encode_entry(e).term == e.term,
        rpc::encode_entry(e).index == e.index,
        rpc::encode_entry(e).command == rpc::encode_command(e.command),
        rpc::decode_entry(message) matches Some(back) ==> back.term == message.term && back.index
            == message.index && rpc::decode_command(message.command) == Some(back.command),
        rpc::decode_entry(message) is None <==> rpc::decode_command(message.command) is None,
{
}

/// An update whose job cannot be read is left out; one that can be read is kept, whatever stands
/// around it.
pub proof fn unreadable_updates_are_left_out(front: Seq<UpdateMessage>, last: UpdateMessage)
    ensures
        ids::parsed_job_id(last.job_id) is None ==> rpc::decode_updates(front.push(last))
            == rpc::decode_updates(front),
        ids::parsed_job_id(last.job_id) is Some ==> rpc::decode_updates(front.push(last)).len()
            == rpc::decode_updates(front).len() + 1 && rpc::decode_updates(
            front.push(last),
        ).last().job_id == ids::parsed_job_id(last.job_id)->0,
        rpc::decode_updates(Seq::empty()).len() == 0,
{
    assert(front.push(last).drop_last() =~= front);
}

/// A job of a snapshot that is sent is read back as it was, its moments to the millisecond, where
/// its identifier is.
pub proof fn snapshot_jobs_arrive_as_sent(job: SnapshotJobView)
    requires
        rpc::snapshot_job_wf(job),
    ensures
        ids::parsed_job_id(ids::job_id_text(job.id)) == Some(job.id) ==> ({
            let back = rpc::decode_snapshot_job(rpc::encode_snapshot_job(job));
            &&& back is Some
            &&& back->0.id == job.id
            &&& back->0.command == job.command
            &&& back->0.image == job.image
            &&& back->0.status == job.status
            &&& back->0.assigned_worker == job.assigned_worker
            &&& back->0.executed_by == job.executed_by
            &&& back->0.exit_code == job.exit_code
            &&& cut_to_the_millisecond(back->0.created_at, job.created_at)
            &&& both_cut(back->0.completed_at, job.completed_at)
            &&& back->0 == rpc::snapshot_job_to_ms(job)
        }),
{
    statuses_have_their_numbers(job.status);
    milliseconds_lead_back(job.created_at);
    if job.completed_at is Some {
        milliseconds_lead_back(job.completed_at->0);
    }
}

/// A snapshot is sent with the leader's term and name, and keeps its end, its jobs and its
/// workers.
pub proof fn snapshots_are_sent_whole(snapshot: SnapshotView, term: u64, leader: u64)
    ensures
        ({
            let sent = rpc::encode_snapshot(snapshot, term, leader);
            let back = rpc::decode_snapshot(sent);
            &&& sent.term == term
            &&& sent.leader_id == leader
            &&& back.last_included_index == snapshot.last_included_index
            &&& back.last_included_term == snapshot.last_included_term
            &&& back.workers == snapshot.workers
            &&& sent.jobs.len() == snapshot.jobs.len()
            &&& forall|i: int|
                0 <= i < snapshot.jobs.len() ==> #[trigger] sent.jobs[i]
                    == rpc::encode_snapshot_job(snapshot.jobs[i])
            &&& rpc::snapshot_to_ms(snapshot).workers == snapshot.workers
            &&& rpc::snapshot_to_ms(snapshot).last_included_index == snapshot.last_included_index
            &&& rpc::snapshot_to_ms(snapshot).last_included_term == snapshot.last_included_term
            &&& rpc::snapshot_to_ms(snapshot).jobs.len() == snapshot.jobs.len()
        }),
{
}

/// A node that starts again has the term, vote, log and snapshot that were stored, counts what was
/// compacted as committed and applied, and follows nobody yet.
pub proof fn restarts_resume_what_was_stored(p: PersistedState)
    ensures
        ({
            let s = node::restored_state(p);
            &&& s.current_term == p.current_term
            &&& s.voted_for == p.voted_for
            &&& s.log.len() == p.log@.len()
            &&& forall|i: int| 0 <= i < p.log@.len() ==> #[trigger] s.log[i] == p.log@[i]@
            &&& s.log_offset == p.log_offset
            &&& s.snapshot is Some <==> p.snapshot is Some
            &&& p.snapshot matches Some(snapshot) ==> s.snapshot == Some(snapshot@)
            &&& s.commit_index == p.log_offset
            &&& s.last_applied == p.log_offset
            &&& s.role is Follower
            &&& s.leader_id is None
        }),
{
}

/// Cutting off and bringing back move peers between the two sides, and only those named.
pub proof fn links_move_the_peers_named(links: node::Links, peer: u64, other: u64)
    ensures
        ({
            let cut = node::after_disconnect(links, peer);
            let back = node::after_reconnect(links, peer);
            let none = node::after_disconnect_all(links);
            let all = node::after_reconnect_all(links);
            &&& !cut.connected.contains(peer)
            &&& links.connected.contains(peer) ==> cut.cut_off.contains(peer)
            &&& !back.cut_off.contains(peer)
            &&& links.cut_off.contains(peer) ==> back.connected.contains(peer)
            &&& other != peer ==> (cut.connected.contains(other) <==> links.connected.contains(
                other,
            )) && (cut.cut_off.contains(other) <==> links.cut_off.contains(other))
            &&& other != peer ==> (back.connected.contains(other) <==> links.connected.contains(
                other,
            )) && (back.cut_off.contains(other) <==> links.cut_off.contains(other))
            &&& !none.connected.contains(other)
            &&& none.cut_off.contains(other) <==> links.connected.contains(other)
                || links.cut_off.contains(other)
            &&& !all.cut_off.contains(other)
            &&& all.connected.contains(other) <==> links.connected.contains(other)
                || links.cut_off.contains(other)
        }),
{
}

} // verus!
