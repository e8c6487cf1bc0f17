//! The order in which jobs are listed: a listing is determined by the jobs alone.

use crate::ids::JobId;
use crate::scheduler::job::{Job, JobView};
use vstd::prelude::*;

verus! {

/// `a` is listed before `b`: it was created earlier or, created at the same moment, it has the
/// smaller identifier.
pub open spec fn precedes(a: JobView, b: JobView) -> bool {
    if a.created_at == b.created_at {
        a.id < b.id
    } else {
        a.created_at.at_or_before(b.created_at)
    }
}

/// The jobs stand in the order of a listing.
pub open spec fn in_order(listed: Seq<JobView>) -> bool {
    forall|i: int, j: int|
        0 <= i < j < listed.len() ==> precedes(#[trigger] listed[i], #[trigger] listed[j])
}

/// `listed` holds every job once, in order.
pub open spec fn is_listing(listed: Seq<JobView>, jobs: Map<JobId, JobView>) -> bool {
    &&& forall|i: int|
        0 <= i < listed.len() ==> jobs.contains_key((#[trigger] listed[i]).id) && listed[i]
            == jobs[listed[i].id]
    &&& forall|id: JobId| #[trigger] jobs.contains_key(id) ==> listed.contains(jobs[id])
    &&& in_order(listed)
}

/// The jobs in order of creation, those of the same moment by identifier.
pub open spec fn listing(jobs: Map<JobId, JobView>) -> Seq<JobView> {
    choose|listed: Seq<JobView>| is_listing(listed, jobs)
}

/// What the jobs of a list say.
pub open spec fn job_views(jobs: Seq<&Job>) -> Seq<JobView> {
    jobs.map_values(|job: &Job| job@)
}

/// Tells whether `a` is listed before `b`.
pub fn is_before(a: &Job, b: &Job) -> (r: bool)
    ensures
        r == precedes(a@, b@),
{
    if a.created_at == b.created_at {
        a.id < b.id
    } else {
        a.created_at.is_at_or_before(&b.created_at)
    }
}

/// The jobs without the last one of their listing are listed by what stands before it.
proof fn listing_without_last(listed: Seq<JobView>, jobs: Map<JobId, JobView>)
    requires
        is_listing(listed, jobs),
        listed.len() > 0,
        forall|id: JobId| #[trigger] jobs.contains_key(id) ==> jobs[id].id == id,
    ensures
        is_listing(listed.drop_last(), jobs.remove(listed.last().id)),
{
    let rest = jobs.remove(listed.last().id);
    let front = listed.drop_last();
    assert forall|i: int| 0 <= i < front.len() implies rest.contains_key((#[trigger] front[i]).id)
        && front[i] == rest[front[i].id] by {
        assert(listed[i] == front[i]);
        assert(precedes(listed[i], listed[listed.len() - 1]));
    }
    assert forall|id: JobId| #[trigger] rest.contains_key(id) implies front.contains(rest[id]) by {
        assert(jobs.contains_key(id));
        let k = choose|k: int| 0 <= k < listed.len() && listed[k] == jobs[id];
        assert(k < front.len());
        assert(front[k] == rest[id]);
    }
}

/// There is one listing of given jobs.
pub proof fn listing_is_unique(a: Seq<JobView>, b: Seq<JobView>, jobs: Map<JobId, JobView>)
    requires
        is_listing(a, jobs),
        is_listing(b, jobs),
        forall|id: JobId| #[trigger] jobs.contains_key(id) ==> jobs[id].id == id,
    ensures
        a == b,
    decreases a.len(),
{
    if a.len() == 0 {
        if b.len() > 0 {
            assert(jobs.contains_key(b[0].id));
            assert(a.contains(b[0]));
        }
        assert(a =~= b);
    } else {
        assert(jobs.contains_key(a[0].id));
        assert(b.contains(a[0]));
        let x = a[a.len() - 1];
        let y = b[b.len() - 1];
        assert(jobs.contains_key(x.id) && jobs.contains_key(y.id));
        assert(b.contains(x) && a.contains(y));
        let k = choose|k: int| 0 <= k < b.len() && b[k] == x;
        let m = choose|m: int| 0 <= m < a.len() && a[m] == y;
        if k < b.len() - 1 && m < a.len() - 1 {
            assert(precedes(b[k], y));
            assert(precedes(a[m], x));
        }
        assert(x == y);
        listing_without_last(a, jobs);
        listing_without_last(b, jobs);
        let rest = jobs.remove(x.id);
        assert forall|id: JobId| #[trigger] rest.contains_key(id) implies rest[id].id == id by {
            assert(jobs.contains_key(id));
        }
        listing_is_unique(a.drop_last(), b.drop_last(), rest);
        assert(a =~= a.drop_last().push(x));
        assert(b =~= b.drop_last().push(y));
    }
}

/// Where a job belongs in a listing of others.
proof fn place_for(listed: Seq<JobView>, job: JobView) -> (p: int)
    requires
        in_order(listed),
        forall|i: int| 0 <= i < listed.len() ==> (#[trigger] listed[i]).id != job.id,
    ensures
        0 <= p <= listed.len(),
        in_order(listed.insert(p, job)),
        forall|i: int| 0 <= i < p ==> precedes(#[trigger] listed[i], job),
        forall|i: int| p <= i < listed.len() ==> precedes(job, #[trigger] listed[i]),
    decreases listed.len(),
{
    if listed.len() == 0 {
        0
    } else {
        let last = listed[listed.len() - 1];
        if precedes(last, job) {
            assert forall|i: int| 0 <= i < listed.len() implies precedes(
                #[trigger] listed[i],
                job,
            ) by {
                if i < listed.len() - 1 {
                    assert(precedes(listed[i], last));
                }
            }
            listed.len() as int
        } else {
            let front = listed.drop_last();
            assert forall|i: int| 0 <= i < front.len() implies (#[trigger] front[i]).id
                != job.id by {
                assert(listed[i] == front[i]);
            }
            assert(in_order(front));
            let p = place_for(front, job);
            assert forall|i: int| 0 <= i < p implies precedes(#[trigger] listed[i], job) by {
                assert(front[i] == listed[i]);
            }
            assert forall|i: int| p <= i < listed.len() implies precedes(
                job,
                #[trigger] listed[i],
            ) by {
                if i < front.len() {
                    assert(front[i] == listed[i]);
                }
            }
            p
        }
    }
}

/// Jobs can always be listed: `listing` holds every job once, in order.
pub proof fn listing_lists(jobs: Map<JobId, JobView>)
    requires
        jobs.dom().finite(),
        forall|id: JobId| #[trigger] jobs.contains_key(id) ==> jobs[id].id == id,
    ensures
        is_listing(listing(jobs), jobs),
    decreases jobs.dom().len(),
{
    if jobs.dom().len() == 0 {
        assert(jobs.dom() =~= Set::empty());
        assert forall|id: JobId| !#[trigger] jobs.contains_key(id) by {
            assert(!jobs.dom().contains(id));
        }
        assert(is_listing(Seq::empty(), jobs));
    } else {
        let id = jobs.dom().choose();
        let rest = jobs.remove(id);
        assert forall|k: JobId| #[trigger] rest.contains_key(k) implies rest[k].id == k by {
            assert(jobs.contains_key(k));
        }
        listing_lists(rest);
        let before = listing(rest);
        assert(jobs.contains_key(id));
        let job = jobs[id];
        assert forall|i: int| 0 <= i < before.len() implies (#[trigger] before[i]).id != job.id by {
            assert(rest.contains_key(before[i].id));
        }
        let p = place_for(before, job);
        let listed = before.insert(p, job);
        assert forall|i: int| 0 <= i < listed.len() implies jobs.contains_key(
            (#[trigger] listed[i]).id,
        ) && listed[i] == jobs[listed[i].id] by {
            if i < p {
                assert(rest.contains_key(before[i].id));
            } else if i > p {
                assert(rest.contains_key(before[i - 1].id));
            }
        }
        assert forall|k: JobId| #[trigger] jobs.contains_key(k) implies listed.contains(
            jobs[k],
        ) by {
            if k == id {
                assert(listed[p] == jobs[k]);
            } else {
                assert(rest.contains_key(k));
                let m = choose|m: int| 0 <= m < before.len() && before[m] == rest[k];
                let n = if m < p {
                    m
                } else {
                    m + 1
                };
                assert(listed[n] == jobs[k]);
            }
        }
        assert(is_listing(listed, jobs));
    }
}

} // verus!
