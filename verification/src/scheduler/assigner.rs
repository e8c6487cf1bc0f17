use std::collections::{HashMap, HashSet};

use crate::clock;
use crate::clock::{millis_between, Clock, Moment};
use crate::ids::JobId;
use crate::lemmas;
use crate::scheduler::job::JobView;
use crate::scheduler::queue;
use crate::scheduler::queue::JobQueue;
use vstd::prelude::*;

verus! {

broadcast use vstd::std_specs::hash::group_hash_axioms;

/// What the leader knows of a worker.
#[derive(Debug)]
pub struct WorkerState {
    pub id: u64,
    pub last_heartbeat: Moment,
    pub running_jobs: HashSet<JobId>,
}

/// The heartbeat `last` is less than `timeout_ms` old.
pub open spec fn alive_at(last: Moment, now: Moment, timeout_ms: u64) -> bool {
    clock::elapsed_ms(last, now) < timeout_ms
}

impl WorkerState {
    /// A worker without jobs that gave a sign of life at `now`.
    pub fn new(id: u64, now: Moment) -> (r: Self)
        ensures
            r.id == id,
            r.last_heartbeat == now,
            r.running_jobs@ == Set::<JobId>::empty(),
    {
        WorkerState { id, last_heartbeat: now, running_jobs: HashSet::new() }
    }

    /// Notes a sign of life at `now`.
    pub fn update_heartbeat(&mut self, now: Moment)
        ensures
            final(self).last_heartbeat == now,
            final(self).id == old(self).id,
            final(self).running_jobs == old(self).running_jobs,
    {
        self.last_heartbeat = now;
    }

    /// Tells whether the last sign of life is less than `timeout_ms` old at `now`.
    pub fn is_alive(&self, timeout_ms: u64, now: Moment) -> (r: bool)
        ensures
            r == alive_at(self.last_heartbeat, now, timeout_ms),
    {
        millis_between(self.last_heartbeat, now) < timeout_ms as u128
    }
}

/// A worker as the model sees it: its last sign of life and the jobs it runs.
#[verifier::ext_equal]
pub struct WorkerView {
    pub last_heartbeat: Moment,
    pub running_jobs: Set<JobId>,
}

/// Assigns jobs to workers.
#[derive(Debug)]
pub struct JobAssigner {
    pub workers: HashMap<u64, WorkerState>,
    worker_timeout_ms: u64,
    clock: Clock,
}

/// What the model keeps of a worker.
pub open spec fn worker_view(w: WorkerState) -> WorkerView {
    WorkerView { last_heartbeat: w.last_heartbeat, running_jobs: w.running_jobs@ }
}

/// The workers with what is known of each.
pub open spec fn workers_view(workers: Map<u64, WorkerState>) -> Map<u64, WorkerView> {
    workers.map_values(|w: WorkerState| worker_view(w))
}

/// `listed` holds every worker once.
pub open spec fn lists_workers(listed: Seq<&WorkerState>, workers: Map<u64, WorkerView>) -> bool {
    &&& forall|i: int|
        0 <= i < listed.len() ==> workers.contains_key((#[trigger] listed[i]).id)
            && workers[listed[i].id] == worker_view(*listed[i])
    &&& forall|i: int, j: int|
        0 <= i < j < listed.len() ==> (#[trigger] listed[i]).id != (#[trigger] listed[j]).id
    &&& forall|id: u64| #[trigger]
        workers.contains_key(id) ==> exists|i: int|
            0 <= i < listed.len() && (#[trigger] listed[i]).id == id
}

/// What a search for an assignment at `now` may come to: a right choice where there is one,
/// otherwise nothing.
pub open spec fn assignment_outcome(
    choice: Option<(JobId, u64)>,
    workers: Map<u64, WorkerView>,
    now: Moment,
    timeout_ms: u64,
    jobs: Map<JobId, JobView>,
) -> bool {
    match choice {
        Some(c) => right_assignment(c, workers, now, timeout_ms, jobs),
        None => !assignable(workers, now, timeout_ms, jobs),
    }
}

/// Jobs and workers before and after an assignment, or after none.
pub open spec fn assignment_made(
    choice: Option<(JobId, u64)>,
    workers: Map<u64, WorkerView>,
    new_workers: Map<u64, WorkerView>,
    jobs: Map<JobId, JobView>,
    new_jobs: Map<JobId, JobView>,
) -> bool {
    match choice {
        Some((job_id, worker_id)) => {
            &&& new_jobs == jobs.insert(job_id, queue::assigned_to(jobs[job_id], worker_id))
            &&& new_workers == after_assignment(workers, worker_id, job_id)
        },
        None => new_jobs == jobs && new_workers == workers,
    }
}

impl View for JobAssigner {
    type V = Map<u64, WorkerView>;

    closed spec fn view(&self) -> Map<u64, WorkerView> {
        workers_view(self.workers@)
    }
}

/// A worker just registered.
pub open spec fn fresh_worker(now: Moment) -> WorkerView {
    WorkerView { last_heartbeat: now, running_jobs: Set::empty() }
}

/// The workers after a sign of life of `id` at `now`: an unknown worker is registered.
pub open spec fn after_heartbeat(workers: Map<u64, WorkerView>, id: u64, now: Moment) -> Map<
    u64,
    WorkerView,
> {
    if workers.contains_key(id) {
        workers.insert(id, WorkerView { last_heartbeat: now, ..workers[id] })
    } else {
        workers.insert(id, fresh_worker(now))
    }
}

/// The workers after `id` took up a job.
pub open spec fn after_assignment(workers: Map<u64, WorkerView>, id: u64, job_id: JobId) -> Map<
    u64,
    WorkerView,
> {
    if workers.contains_key(id) {
        workers.insert(
            id,
            WorkerView { running_jobs: workers[id].running_jobs.insert(job_id), ..workers[id] },
        )
    } else {
        workers
    }
}

/// The workers after `id` let go of a job.
pub open spec fn after_completion(workers: Map<u64, WorkerView>, id: u64, job_id: JobId) -> Map<
    u64,
    WorkerView,
> {
    if workers.contains_key(id) {
        workers.insert(
            id,
            WorkerView { running_jobs: workers[id].running_jobs.remove(job_id), ..workers[id] },
        )
    } else {
        workers
    }
}

/// The workers whose last sign of life is recent at `now`.
pub open spec fn alive_workers(
    workers: Map<u64, WorkerView>,
    now: Moment,
    timeout_ms: u64,
) -> Set<u64> {
    workers.dom().filter(|id: u64| alive_at(workers[id].last_heartbeat, now, timeout_ms))
}

/// A choice of job and worker is right: the job waits, the worker is alive at `now`, and no
/// other worker alive runs fewer jobs.
pub open spec fn right_assignment(
    choice: (JobId, u64),
    workers: Map<u64, WorkerView>,
    now: Moment,
    timeout_ms: u64,
    jobs: Map<JobId, JobView>,
) -> bool {
    let alive = alive_workers(workers, now, timeout_ms);
    &&& jobs.contains_key(choice.0)
    &&& jobs[choice.0].status is Pending
    &&& alive.contains(choice.1)
    &&& forall|id: u64| #[trigger]
        alive.contains(id) ==> workers[choice.1].running_jobs.len() <= workers[id].running_jobs.len()
}

/// An assignment is possible at `now`: a job waits and a worker is alive.
pub open spec fn assignable(
    workers: Map<u64, WorkerView>,
    now: Moment,
    timeout_ms: u64,
    jobs: Map<JobId, JobView>,
) -> bool {
    &&& exists|id: u64| #[trigger] alive_workers(workers, now, timeout_ms).contains(id)
    &&& exists|id: JobId| #[trigger] jobs.contains_key(id) && jobs[id].status is Pending
}

impl JobAssigner {
    /// Age at which a worker counts as dead.
    pub closed spec fn timeout_ms(&self) -> u64 {
        self.worker_timeout_ms
    }

    /// Every worker stands under its own identifier.
    pub closed spec fn wf(&self) -> bool {
        forall|id: u64| #[trigger] self.workers@.contains_key(id) ==> self.workers@[id].id == id
    }

    /// An assigner without workers.
    pub fn new(worker_timeout_ms: u64) -> (r: Self)
        ensures
            r.wf(),
            r@ == Map::<u64, WorkerView>::empty(),
            r.timeout_ms() == worker_timeout_ms,
    {
        let r = JobAssigner {
            workers: HashMap::new(),
            worker_timeout_ms,
            clock: Clock::start(),
        };
        assert(r@ =~= Map::<u64, WorkerView>::empty());
        r
    }

    /// `m` is what a reading of the clock by which workers are judged gave.
    pub closed spec fn clock_reads(&self, m: Moment) -> bool {
        self.clock.reads(m)
    }

    /// The readings are those of one clock.
    proof fn one_clock_is_read(&self, m: Moment)
        requires
            self.clock_reads(m),
        ensures
            self.clock.reads(m),
    {
    }

    /// Reads the clock by which workers are judged.
    pub fn now(&self) -> (r: Moment)
        ensures
            self.clock_reads(r),
    {
        self.clock.now()
    }

    /// Registers a worker, anew if it was known.
    pub fn register_worker(&mut self, worker_id: u64)
        requires
            old(self).wf(),
        ensures
            final(self).wf(),
            final(self).timeout_ms() == old(self).timeout_ms(),
            exists|now: Moment|
                old(self).clock_reads(now) && final(self)@ == old(self)@.insert(
                    worker_id,
                    #[trigger] fresh_worker(now),
                ),
    {
        let now = self.now();
        self.register_worker_at(worker_id, now);
    }

    /// Registers a worker at `now`, anew if it was known.
    pub fn register_worker_at(&mut self, worker_id: u64, now: Moment)
        requires
            old(self).wf(),
        ensures
            final(self).wf(),
            final(self).timeout_ms() == old(self).timeout_ms(),
            final(self)@ == old(self)@.insert(worker_id, fresh_worker(now)),
    {
        self.workers.insert(worker_id, WorkerState::new(worker_id, now));
        assert(self@ =~= old(self)@.insert(worker_id, fresh_worker(now)));
    }

    /// Notes a sign of life of a worker; an unknown worker is registered.
    pub fn worker_heartbeat(&mut self, worker_id: u64)
        requires
            old(self).wf(),
        ensures
            final(self).wf(),
            final(self).timeout_ms() == old(self).timeout_ms(),
            exists|now: Moment|
                old(self).clock_reads(now) && final(self)@ == #[trigger] after_heartbeat(
                    old(self)@,
                    worker_id,
                    now,
                ),
    {
        let now = self.now();
        self.worker_heartbeat_at(worker_id, now);
    }

    /// Notes a sign of life of a worker at `now`; an unknown worker is registered.
    pub fn worker_heartbeat_at(&mut self, worker_id: u64, now: Moment)
        requires
            old(self).wf(),
        ensures
            final(self).wf(),
            final(self).timeout_ms() == old(self).timeout_ms(),
            final(self)@ == after_heartbeat(old(self)@, worker_id, now),
    {
        match self.workers.remove(&worker_id) {
            Some(worker) => {
                let mut worker = worker;
                worker.update_heartbeat(now);
                self.workers.insert(worker_id, worker);
                assert(self@ =~= after_heartbeat(old(self)@, worker_id, now));
            },
            None => {
                assert(self@ =~= old(self)@);
                self.register_worker_at(worker_id, now);
            },
        }
    }

    /// The identifiers of all workers, in no particular order.
    fn worker_ids(&self) -> (r: Vec<u64>)
        ensures
            r@.no_duplicates(),
            r@.to_set() == self@.dom(),
    {
        let mut ids: Vec<u64> = Vec::new();
        let ghost all = vstd::std_specs::iter::IteratorSpec::remaining(&self.workers.keys());
        for id in it: self.workers.keys()
            invariant
                it.seq() == all,
                ids@ == all.unref().take(it.index()),
        {
            ids.push(*id);
        }
        assert(all.unref().take(all.len() as int) =~= all.unref());
        assert(self@.dom() =~= self.workers@.dom());
        ids
    }

    /// The workers that are alive now, in no particular order.
    pub fn available_workers(&self) -> (r: Vec<u64>)
        requires
            self.wf(),
        ensures
            r@.no_duplicates(),
            exists|now: Moment|
                self.clock_reads(now) && r@.to_set() == #[trigger] alive_workers(
                    self@,
                    now,
                    self.timeout_ms(),
                ),
    {
        let now = self.now();
        self.available_workers_at(now)
    }

    /// The workers that are alive at `now`, in no particular order.
    pub fn available_workers_at(&self, now: Moment) -> (r: Vec<u64>)
        requires
            self.wf(),
        ensures
            r@.no_duplicates(),
            r@.to_set() == alive_workers(self@, now, self.timeout_ms()),
    {
        self.workers_by_life(now, true)
    }

    /// The workers that are alive, or those that are dead, at `now`.
    fn workers_by_life(&self, now: Moment, alive: bool) -> (r: Vec<u64>)
        requires
            self.wf(),
        ensures
            r@.no_duplicates(),
            r@.to_set() == self@.dom().filter(
                |id: u64| alive_at(self@[id].last_heartbeat, now, self.timeout_ms()) == alive,
            ),
    {
        let ids = self.worker_ids();
        let mut chosen: Vec<u64> = Vec::new();
        let ghost which = |id: u64|
            alive_at(self@[id].last_heartbeat, now, self.timeout_ms()) == alive;
        for i in 0..ids.len()
            invariant
                self.wf(),
                ids@.to_set() == self@.dom(),
                which == (|id: u64|
                    alive_at(self@[id].last_heartbeat, now, self.timeout_ms()) == alive),
                chosen@ == ids@.take(i as int).filter(which),
        {
            proof {
                lemmas::filter_step(ids@, i as int, which);
                assert(ids@.to_set().contains(ids@[i as int]));
            }
            match self.workers.get(&ids[i]) {
                Some(worker) => {
                    if worker.is_alive(self.worker_timeout_ms, now) == alive {
                        chosen.push(worker.id);
                    }
                },
                None => {},
            }
        }
        proof {
            assert(ids@.take(ids@.len() as int) =~= ids@);
            lemmas::filter_unique(ids@, which);
            assert(chosen@.to_set() =~= self@.dom().filter(which));
        }
        chosen
    }

    /// The workers that are dead now, in no particular order.
    pub fn check_dead_workers(&self) -> (r: Vec<u64>)
        requires
            self.wf(),
        ensures
            r@.no_duplicates(),
            exists|now: Moment|
                self.clock_reads(now) && r@.to_set() == self@.dom().difference(
                    #[trigger] alive_workers(self@, now, self.timeout_ms()),
                ),
    {
        let now = self.now();
        self.check_dead_workers_at(now)
    }

    /// The workers that are dead at `now`, in no particular order.
    pub fn check_dead_workers_at(&self, now: Moment) -> (r: Vec<u64>)
        requires
            self.wf(),
        ensures
            r@.no_duplicates(),
            r@.to_set() == self@.dom().difference(alive_workers(self@, now, self.timeout_ms())),
    {
        let dead = self.workers_by_life(now, false);
        assert(dead@.to_set() =~= self@.dom().difference(
            alive_workers(self@, now, self.timeout_ms()),
        ));
        dead
    }

    /// The worker alive at `now` that runs the fewest jobs.
    fn least_loaded_worker(&self, now: Moment) -> (r: Option<u64>)
        requires
            self.wf(),
        ensures
            r is None ==> forall|id: u64|
                !#[trigger] alive_workers(self@, now, self.timeout_ms()).contains(id),
            r matches Some(best) ==> alive_workers(self@, now, self.timeout_ms()).contains(best)
                && forall|id: u64| #[trigger]
                alive_workers(self@, now, self.timeout_ms()).contains(id)
                    ==> self@[best].running_jobs.len() <= self@[id].running_jobs.len(),
    {
        let available = self.available_workers_at(now);
        let ghost alive = alive_workers(self@, now, self.timeout_ms());
        let mut best: Option<(u64, usize)> = None;
        for i in 0..available.len()
            invariant
                available@.to_set() == alive,
                alive == alive_workers(self@, now, self.timeout_ms()),
                best is None <==> i == 0,
                best matches Some(b) ==> alive.contains(b.0) && b.1
                    == self@[b.0].running_jobs.len() && forall|k: int|
                    0 <= k < i ==> b.1 <= self@[#[trigger] available@[k]].running_jobs.len(),
        {
            let id: u64 = available[i];
            assert(available@.to_set().contains(available@[i as int]));
            match self.workers.get(&id) {
                Some(worker) => {
                    let load: usize = worker.running_jobs.len();
                    let better = match best {
                        Some((_, least)) => load < least,
                        None => true,
                    };
                    if better {
                        best = Some((id, load));
                    }
                },
                None => {},
            }
        }
        proof {
            assert forall|id: u64| #[trigger] alive.contains(id) implies available@.contains(id) by {
                assert(available@.to_set().contains(id));
            }
        }
        match best {
            Some((id, _)) => Some(id),
            None => None,
        }
    }

    /// The next job to assign and the worker for it, as things stand at `now`: a job that waits
    /// and the least loaded worker. `None` without such a job or worker.
    pub fn next_assignment_at(&self, queue: &JobQueue, now: Moment) -> (r: Option<(JobId, u64)>)
        requires
            self.wf(),
            queue.wf(),
        ensures
            assignment_outcome(r, self@, now, self.timeout_ms(), queue@),
    {
        match self.least_loaded_worker(now) {
            None => None,
            Some(worker_id) => {
                let waiting = queue.pending_jobs();
                if waiting.len() == 0 {
                    assert(forall|id: JobId| #[trigger]
                        queue@.contains_key(id) ==> !(queue::pending()(queue@[id])));
                    return None;
                }
                let job_id: JobId = waiting[0].id;
                assert(queue::pending()(queue@[job_id]));
                Some((job_id, worker_id))
            },
        }
    }

    /// Assigns a job that waits to the least loaded worker that is alive now. Returns the job and
    /// the worker, or `None` when there is no such job or worker.
    pub fn assign_next_job(&mut self, queue: &mut JobQueue) -> (r: Option<(JobId, u64)>)
        requires
            old(self).wf(),
            old(queue).wf(),
        ensures
            final(self).wf(),
            final(queue).wf(),
            final(self).timeout_ms() == old(self).timeout_ms(),
            final(queue).capacity() == old(queue).capacity(),
            exists|now: Moment|
                old(self).clock_reads(now) && #[trigger] assignment_outcome(
                    r,
                    old(self)@,
                    now,
                    old(self).timeout_ms(),
                    old(queue)@,
                ),
            assignment_made(r, old(self)@, final(self)@, old(queue)@, final(queue)@),
    {
        let now = self.now();
        self.assign_next_job_at(queue, now)
    }

    /// Assigns a job that waits to the least loaded worker that is alive at `now`.
    pub fn assign_next_job_at(&mut self, queue: &mut JobQueue, now: Moment) -> (r: Option<
        (JobId, u64),
    >)
        requires
            old(self).wf(),
            old(queue).wf(),
        ensures
            final(self).wf(),
            final(queue).wf(),
            final(self).timeout_ms() == old(self).timeout_ms(),
            final(queue).capacity() == old(queue).capacity(),
            assignment_outcome(r, old(self)@, now, old(self).timeout_ms(), old(queue)@),
            assignment_made(r, old(self)@, final(self)@, old(queue)@, final(queue)@),
    {
        match self.next_assignment_at(queue, now) {
            Some((job_id, worker_id)) => {
                queue.assign_job(&job_id, worker_id);
                self.job_assigned(worker_id, &job_id);
                Some((job_id, worker_id))
            },
            None => None,
        }
    }

    /// Notes that a worker runs a job. An unknown worker is left unknown.
    pub fn job_assigned(&mut self, worker_id: u64, job_id: &JobId)
        requires
            old(self).wf(),
        ensures
            final(self).wf(),
            final(self).timeout_ms() == old(self).timeout_ms(),
            final(self)@ == after_assignment(old(self)@, worker_id, *job_id),
    {
        match self.workers.remove(&worker_id) {
            Some(worker) => {
                let mut worker = worker;
                worker.running_jobs.insert(*job_id);
                self.workers.insert(worker_id, worker);
            },
            None => {},
        }
        assert(self@ =~= after_assignment(old(self)@, worker_id, *job_id));
    }

    /// Notes that a worker no longer runs a job.
    pub fn job_completed(&mut self, worker_id: u64, job_id: &JobId)
        requires
            old(self).wf(),
        ensures
            final(self).wf(),
            final(self).timeout_ms() == old(self).timeout_ms(),
            final(self)@ == after_completion(old(self)@, worker_id, *job_id),
    {
        match self.workers.remove(&worker_id) {
            Some(worker) => {
                let mut worker = worker;
                worker.running_jobs.remove(job_id);
                self.workers.insert(worker_id, worker);
            },
            None => {},
        }
        assert(self@ =~= after_completion(old(self)@, worker_id, *job_id));
    }

    /// All workers, in no particular order.
    pub fn all_workers(&self) -> (r: Vec<&WorkerState>)
        requires
            self.wf(),
        ensures
            lists_workers(r@, self@),
    {
        let ids = self.worker_ids();
        let mut workers: Vec<&WorkerState> = Vec::new();
        for i in 0..ids.len()
            invariant
                self.wf(),
                ids@.to_set() == self@.dom(),
                workers@.len() == i,
                forall|k: int|
                    0 <= k < i ==> (#[trigger] workers@[k]).id == ids@[k] && self@.contains_key(
                        ids@[k],
                    ) && self@[ids@[k]] == worker_view(*workers@[k]),
        {
            assert(ids@.to_set().contains(ids@[i as int]));
            match self.workers.get(&ids[i]) {
                Some(worker) => workers.push(worker),
                None => {},
            }
        }
        proof {
            assert forall|id: u64| #[trigger] self@.contains_key(id) implies exists|i: int|
                0 <= i < workers@.len() && (#[trigger] workers@[i]).id == id by {
                assert(ids@.to_set().contains(id));
                let k = choose|k: int| 0 <= k < ids@.len() && ids@[k] == id;
                assert(workers@[k].id == id);
            }
        }
        workers
    }

    /// The jobs that a worker runs, in no particular order; none for an unknown worker.
    pub fn running_jobs_of(&self, worker_id: u64) -> (r: Vec<JobId>)
        ensures
            r@.no_duplicates(),
            r@.to_set() == (if self@.contains_key(worker_id) {
                self@[worker_id].running_jobs
            } else {
                Set::empty()
            }),
    {
        let mut ids: Vec<JobId> = Vec::new();
        match self.workers.get(&worker_id) {
            Some(worker) => {
                let ghost all = vstd::std_specs::iter::IteratorSpec::remaining(
                    &worker.running_jobs.iter(),
                );
                for id in it: worker.running_jobs.iter()
                    invariant
                        it.seq() == all,
                        ids@ == all.unref().take(it.index()),
                {
                    ids.push(*id);
                }
                assert(all.unref().take(all.len() as int) =~= all.unref());
            },
            None => {
                assert(ids@.to_set() =~= Set::<JobId>::empty());
            },
        }
        ids
    }

    /// Forgets all workers.
    pub fn clear(&mut self)
        ensures
            final(self).wf(),
            final(self)@ == Map::<u64, WorkerView>::empty(),
            final(self).timeout_ms() == old(self).timeout_ms(),
    {
        self.workers.clear();
        assert(self@ =~= Map::<u64, WorkerView>::empty());
    }
}

} // verus!
