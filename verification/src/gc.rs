//! Garbage collection for the persistent backend.
//!
//! GC removes tasks that have become unreachable from the live task graph (their persistent
//! `parent_count` reached 0). A pass is seeded in one of two ways ([`GcMode`]): by scanning the
//! resident tasks, or from the dead list, a set of candidate ids recorded at the moment change
//! propagation dropped a task's last reference. Dead-list entries are hints, not decisions: a candidate
//! may have been resurrected before the pass runs, so every entry is validated again before teardown.
//!
//! A pass is a pool of jobs that feeds itself. Whatever holds of a pass holds of every order in which
//! the jobs run (see `pass` and `laws`).
use vstd::prelude::*;
use vstd::multiset::*;
use std::collections::BTreeSet;
use std::time::Instant;
use crate::edit::{lemma_unlinked_wf, pinned, recorded, resident, unlinked, unpinned};
use crate::graph::{
    graph_wf, lemma_parentless, lemma_torn_wf, parents, torn_down, transient_parents, Graph,
};
use crate::laws::{
    law_collects_the_condemned, law_every_candidate_has_one_outcome, law_pass_effect, law_pass_ends,
    law_pass_keeps_uppers_ancestors, law_scan_is_never_stale,
};
use crate::mode::GcMode;
use crate::outcome::{
    condemned, condemned_below_ancestors, lemma_counts_fit, orphaned, uppers_are_ancestors,
};
use crate::pass::{
    dead_wf, held_back, job_step, legal, lemma_from_set, lemma_open_then_tear, lemma_pass_graph,
    lemma_run, lemma_start, lemma_step, newly_deleted, opened, run, schedule, seeds, spawned, start,
    zeroed, PassState,
};
use crate::reason::{joined, reasons};
use crate::stats::{longer_of, no_longer, GcCounters, GcPassStats};
use crate::storage::Storage;
use crate::task::{
    collectible, ids, is_transient, still_parentless, transient, OutdatedEdge, Residency, TaskId,
    TaskModel,
};
use crate::teardown::{all_edges, lemma_steps_tear_down, marked_deleted};
use crate::vec_set::lemma_push_contains;

verus! {

/// A unit of garbage-collection work.
#[derive(Clone, Copy, Debug, PartialEq, Eq, Structural)]
pub enum GcJob {
    /// Validate the task again and, if it is still collectible, tear it down.
    Collect(TaskId),
}

impl GcJob {
    /// The task that the job is about.
    pub open spec fn task(self) -> TaskId {
        match self {
            GcJob::Collect(task) => task,
        }
    }
}

/// The tasks that the jobs are about.
pub open spec fn job_tasks(jobs: Seq<GcJob>) -> Seq<TaskId> {
    jobs.map_values(|job: GcJob| job.task())
}

/// The backend: its tasks, and what it knows of garbage.
pub struct TurboTasksBackend {
    /// How GC passes are seeded, or `None` when GC is not configured.
    pub gc: Option<GcMode>,
    pub storage: Storage,
    /// Candidates recorded since the last incremental pass.
    pub gc_dead_list: BTreeSet<TaskId>,
    /// Whether the backend is shutting down.
    pub stopping: bool,
}

/// A pass between two jobs.
pub open spec fn under_way(
    backend: TurboTasksBackend,
    pending: Multiset<TaskId>,
    counters: GcCounters,
) -> PassState {
    PassState {
        tasks: backend.storage@,
        dead: backend.gc_dead_list@,
        pending: pending,
        collected: counters.collected as nat,
        requeued: counters.requeued as nat,
        dropped_stale: counters.dropped_stale as nat,
    }
}

/// Whether the counters can hold what a pass has counted.
pub open spec fn countable(s: PassState) -> bool {
    &&& s.collected <= usize::MAX
    &&& s.requeued <= usize::MAX
    &&& s.dropped_stale <= usize::MAX
}

/// Whether a pass of the given mode can lead from one backend to the other, with these statistics: its
/// jobs ran in some order, until none was left.
pub open spec fn passed(
    mode: GcMode,
    from: TurboTasksBackend,
    to: TurboTasksBackend,
    stats: GcPassStats,
) -> bool {
    &&& stats.mode == mode
    &&& stats.seed_candidates == seeds(mode, from.storage@, from.gc_dead_list@).len()
    &&& to.gc == from.gc
    &&& to.stopping == from.stopping
    &&& exists|order: Seq<TaskId>|
        #![trigger schedule(mode, start(mode, from.storage@, from.gc_dead_list@), order)]
        {
            let s0 = start(mode, from.storage@, from.gc_dead_list@);
            let end = run(mode, s0, order);
            &&& schedule(mode, s0, order)
            &&& to.storage@ == end.tasks
            &&& to.gc_dead_list@ == end.dead
            &&& stats.collected == end.collected
            &&& stats.requeued == end.requeued
            &&& stats.dropped_stale == end.dropped_stale
        }
}

/// What a pass comes to, in whatever order its jobs ran. The tasks that it collected are torn down, and
/// its seeds were brought into memory. They are condemned: nothing but each other kept them; and where
/// each upper of a condemned task is an ancestor of the task, all that is condemned was collected. If
/// each persistent upper of any task was an ancestor, it still is. A scan requeues and drops nothing; in
/// an incremental pass every candidate has one outcome.
pub open spec fn came_to(
    mode: GcMode,
    from: TurboTasksBackend,
    to: TurboTasksBackend,
    stats: GcPassStats,
) -> bool {
    let g = from.storage@;
    let dead = from.gc_dead_list@;
    let d = newly_deleted(g, to.storage@);
    &&& to.storage@ == opened(torn_down(g, d), seeds(mode, g, dead))
    &&& stats.collected == d.len()
    &&& d.subset_of(condemned(g, seeds(mode, g, dead)))
    &&& condemned_below_ancestors(g, seeds(mode, g, dead)) ==> d == condemned(
        g,
        seeds(mode, g, dead),
    )
    &&& uppers_are_ancestors(g) ==> uppers_are_ancestors(to.storage@)
    &&& match mode {
        GcMode::Scan => {
            &&& to.gc_dead_list@ == dead
            &&& stats.requeued == 0
            &&& stats.dropped_stale == 0
        },
        GcMode::Incremental => stats.collected + stats.requeued + stats.dropped_stale == dead.len()
            + orphaned(g, d).len(),
    }
}

/// Some order in which the jobs of a pass can have run.
pub proof fn lemma_some_order(
    mode: GcMode,
    from: TurboTasksBackend,
    to: TurboTasksBackend,
    stats: GcPassStats,
) -> (order: Seq<TaskId>)
    requires
        passed(mode, from, to, stats),
    ensures
        schedule(mode, start(mode, from.storage@, from.gc_dead_list@), order),
        ({
            let end = run(mode, start(mode, from.storage@, from.gc_dead_list@), order);
            &&& to.storage@ == end.tasks
            &&& to.gc_dead_list@ == end.dead
            &&& stats.collected == end.collected
            &&& stats.requeued == end.requeued
            &&& stats.dropped_stale == end.dropped_stale
        }),
{
    let s0 = start(mode, from.storage@, from.gc_dead_list@);
    choose|order: Seq<TaskId>|
        #![trigger schedule(mode, start(mode, from.storage@, from.gc_dead_list@), order)]
        {
            let end = run(mode, s0, order);
            &&& schedule(mode, s0, order)
            &&& to.storage@ == end.tasks
            &&& to.gc_dead_list@ == end.dead
            &&& stats.collected == end.collected
            &&& stats.requeued == end.requeued
            &&& stats.dropped_stale == end.dropped_stale
        }
}

/// A pass comes to the same in whatever order its jobs ran.
pub proof fn law_pass_comes_to(
    mode: GcMode,
    from: TurboTasksBackend,
    to: TurboTasksBackend,
    stats: GcPassStats,
)
    requires
        from.wf(),
        passed(mode, from, to, stats),
    ensures
        came_to(mode, from, to, stats),
{
    let g = from.storage@;
    let dead = from.gc_dead_list@;
    let order = lemma_some_order(mode, from, to, stats);
    law_pass_effect(mode, g, dead, order);
    law_collects_the_condemned(mode, g, dead, order);
    if uppers_are_ancestors(g) {
        law_pass_keeps_uppers_ancestors(mode, g, dead, order);
    }
    match mode {
        GcMode::Scan => law_scan_is_never_stale(g, dead, order),
        GcMode::Incremental => law_every_candidate_has_one_outcome(g, dead, order),
    }
}

impl TurboTasksBackend {
    /// What every backend keeps.
    pub open spec fn wf(&self) -> bool {
        &&& self.storage.wf()
        &&& graph_wf(self.storage@)
        &&& dead_wf(self.storage@, self.gc_dead_list@)
    }

    /// A backend without tasks.
    pub fn new(gc: Option<GcMode>) -> (backend: Self)
        ensures
            backend.wf(),
            backend.gc == gc,
            backend.storage@ == Map::<TaskId, TaskModel>::empty(),
            backend.gc_dead_list@ == Set::<TaskId>::empty(),
            !backend.stopping,
    {
        let backend = TurboTasksBackend {
            gc: gc,
            storage: Storage::new(),
            gc_dead_list: BTreeSet::new(),
            stopping: false,
        };
        proof {
            let g = backend.storage@;
            assert(graph_wf(g));
        }
        backend
    }

    /// Runs one collection job, and hands out the jobs that it spawns. A collectible task is torn
    /// down, and its children that this leaves parentless are collected in turn or, if blocked, put on
    /// the dead list. A stale candidate is put back on the dead list or dropped.
    pub fn gc_run_job(&mut self, job: GcJob, mode: GcMode, counters: &mut GcCounters) -> (more: Vec<
        GcJob,
    >)
        requires
            old(self).wf(),
            old(self).storage@.contains_key(job.task()),
            countable(
                job_step(
                    mode,
                    under_way(*old(self), Multiset::empty(), *old(counters)),
                    job.task(),
                ),
            ),
        ensures
            final(self).wf(),
            final(self).gc == old(self).gc,
            final(self).stopping == old(self).stopping,
            ({
                let s = under_way(*old(self), Multiset::empty(), *old(counters));
                let n = job_step(mode, s, job.task());
                &&& final(self).storage@ == n.tasks
                &&& final(self).gc_dead_list@ == n.dead
                &&& final(counters).collected == n.collected
                &&& final(counters).requeued == n.requeued
                &&& final(counters).dropped_stale == n.dropped_stale
                &&& job_tasks(more@).to_multiset() == if collectible(
                    job.task(),
                    s.tasks[job.task()],
                ) {
                    Multiset::from_set(spawned(s.tasks, job.task()))
                } else {
                    Multiset::empty()
                }
            }),
    {
        let GcJob::Collect(task_id) = job;
        let ghost s = under_way(*self, Multiset::empty(), *counters);
        let ghost g = self.storage@;
        let mut more: Vec<GcJob> = Vec::new();
        // The job brings the task into memory, from disk if need be.
        self.storage.set_residency(task_id, Residency::Restored);
        assert(self.storage@ =~= opened(g, set![task_id]));
        let task = self.storage.get(task_id).unwrap();
        if !task.is_gc_collectible(task_id) {
            assert(job_tasks(more@) =~= Seq::empty());
            assert(job_tasks(more@).to_multiset() == Multiset::<TaskId>::empty()) by {
                vstd::seq_lib::to_multiset_len(job_tasks(more@));
                lemma_multiset_empty_len(job_tasks(more@).to_multiset());
            }
            // Parentless still: real garbage that is merely blocked. Nothing records it again when it
            // is unblocked, so it goes back on the dead list. Otherwise it was resurrected, or is
            // gone already.
            if task.gc_is_still_parentless(task_id) {
                self.gc_dead_list.insert(task_id);
                counters.requeued = counters.requeued + 1;
            } else {
                counters.dropped_stale = counters.dropped_stale + 1;
            }
            return more;
        }
        let ghost g1 = self.storage@;
        proof {
            lemma_open_then_tear(g, task_id);
            lemma_steps_tear_down(g1, task_id);
        }
        let old_edges = task.old_edges();
        assert(old_edges@.to_set() =~= all_edges(g1, task_id));
        let newly_parentless = self.storage.cleanup_old_edges(task_id, &old_edges);
        assert(self.storage@[task_id].followers =~= Set::empty());
        let ghost torn = torn_down(g, set![task_id]);
        let ghost cleaned_up = self.storage@;
        self.gc_mark_deleted(task_id);
        counters.collected = counters.collected + 1;
        proof {
            assert(self.storage@ == torn);
            lemma_collected_wf(g, task_id);
            let z = newly_parentless@;
            assert forall|c: TaskId| z.contains(c) == zeroed(g, task_id).contains(c) by {
                assert(old_edges@.contains(OutdatedEdge::Child(c)) == g1[task_id].has_edge(
                    OutdatedEdge::Child(c),
                ));
                if g[task_id].children.contains(c) {
                    assert(g.contains_key(c));
                    assert(c != task_id) by {
                        lemma_parentless(g, task_id);
                        assert(parents(g, c).contains(task_id));
                    }
                    assert(torn[c].parent_count == cleaned_up[c].parent_count);
                }
            }
            assert(z.to_set() =~= zeroed(g, task_id));
        }
        proof {
            assert(newly_parentless@.to_set().filter(|c: TaskId| collectible(c, torn[c])) =~= spawned(
                g,
                task_id,
            ));
            assert(newly_parentless@.to_set().filter(|c: TaskId| !collectible(c, torn[c]))
                =~= held_back(g, task_id));
        }
        self.gc_cascade(&newly_parentless, mode, counters)
    }

    /// Runs a garbage-collection pass. Seeds it according to `mode`: with the collectible tasks in
    /// memory, or with the dead list, which it drains. Then runs the jobs, and those that they spawn,
    /// until none is left. The two durations of the statistics are what the clock measured; all that is
    /// stated of them is that the total includes the seeding.
    pub fn gc_collect(&mut self, mode: GcMode) -> (stats: GcPassStats)
        requires
            old(self).wf(),
        ensures
            final(self).wf(),
            passed(mode, *old(self), *final(self), stats),
            came_to(mode, *old(self), *final(self), stats),
            no_longer(stats.seed_duration, stats.total_duration),
    {
        let pass_start = Instant::now();
        let ghost g0 = self.storage@;
        let ghost dead0 = self.gc_dead_list@;
        let ghost s0 = start(mode, g0, dead0);
        let candidates = match mode {
            GcMode::Scan => self.storage.gc_collectible_candidates(),
            GcMode::Incremental => {
                let drained = ids(&self.gc_dead_list);
                self.gc_dead_list.clear();
                drained
            },
        };
        // The clock does not run backwards: of two readings the later one is the longer.
        let seed_duration = pass_start.elapsed();
        proof {
            lemma_start(mode, g0, dead0);
            lemma_counts_fit(mode, g0, dead0, Seq::empty());
            assert(schedule(mode, s0, Seq::empty()) == (s0.pending.len() == 0));
            candidates@.unique_seq_to_set();
        }
        if candidates.len() == 0 {
            let stats = GcPassStats::empty(
                mode,
                seed_duration,
                longer_of(seed_duration, pass_start.elapsed()),
            );
            proof {
                law_pass_comes_to(mode, *old(self), *self, stats);
            }
            return stats;
        }
        let seed_candidates = candidates.len();
        let mut jobs: Vec<GcJob> = Vec::new();
        let mut i: usize = 0;
        while i < candidates.len()
            invariant
                i <= candidates@.len(),
                job_tasks(jobs@) =~= candidates@.take(i as int),
            decreases candidates@.len() - i,
        {
            let ghost before = job_tasks(jobs@);
            jobs.push(GcJob::Collect(candidates[i]));
            assert(job_tasks(jobs@) =~= before.push(candidates@[i as int]));
            i = i + 1;
        }
        let mut counters = GcCounters::new();
        let ghost mut order: Seq<TaskId> = Seq::empty();
        proof {
            assert(job_tasks(jobs@) =~= candidates@);
            lemma_listed_once(candidates@);
            assert(under_way(*self, job_tasks(jobs@).to_multiset(), counters) =~= s0);
        }
        while jobs.len() > 0
            invariant
                self.wf(),
                self.gc == old(self).gc,
                self.stopping == old(self).stopping,
                graph_wf(g0),
                dead_wf(g0, dead0),
                s0 == start(mode, g0, dead0),
                legal(mode, s0, order),
                run(mode, s0, order) == under_way(
                    *self,
                    job_tasks(jobs@).to_multiset(),
                    counters,
                ),
            decreases 2 * g0.dom().len() + 1 - order.len(),
        {
            let ghost s = under_way(*self, job_tasks(jobs@).to_multiset(), counters);
            let ghost before = jobs@;
            let job = jobs.pop().unwrap();
            let ghost t = job.task();
            let ghost longer = order.push(t);
            proof {
                broadcast use vstd::seq_lib::group_to_multiset_ensures;

                assert(job_tasks(before) =~= job_tasks(jobs@).push(t));
                assert(job_tasks(before)[before.len() - 1] == t);
                assert(s.pending.contains(t));
                assert(longer.drop_last() =~= order);
                assert(legal(mode, s0, longer));
                assert(run(mode, s0, longer) == job_step(mode, s, t));
                lemma_start(mode, g0, dead0);
                lemma_run(mode, s0, order);
                lemma_pass_graph(s0, order.to_set(), s);
                lemma_step(mode, s0, order.to_set(), s, t);
                assert(s.pending.count(t) > 0);
                lemma_counts_fit(mode, g0, dead0, longer);
                law_pass_ends(mode, g0, dead0, longer);
            }
            let ghost rest = job_tasks(jobs@).to_multiset();
            let mut more = self.gc_run_job(job, mode, &mut counters);
            let ghost left = jobs@;
            let ghost extra = more@;
            jobs.append(&mut more);
            proof {
                broadcast use group_multiset_axioms;

                let n = job_step(mode, s, t);
                assert(job_tasks(jobs@) =~= job_tasks(left) + job_tasks(extra));
                vstd::seq_lib::lemma_multiset_commutative(job_tasks(left), job_tasks(extra));
                assert(s.pending =~= rest.insert(t)) by {
                    vstd::seq_lib::to_multiset_build(job_tasks(left), t);
                }
                assert(job_tasks(jobs@).to_multiset() =~= n.pending);
                assert(under_way(*self, job_tasks(jobs@).to_multiset(), counters) =~= n);
                order = longer;
            }
        }
        proof {
            vstd::seq_lib::to_multiset_len(job_tasks(jobs@));
            assert(schedule(mode, s0, order));
        }
        let stats = GcPassStats::of_pass(
            mode,
            seed_candidates,
            &counters,
            seed_duration,
            longer_of(seed_duration, pass_start.elapsed()),
        );
        proof {
            law_pass_comes_to(mode, *old(self), *self, stats);
        }
        stats
    }

    /// Follows the cascade: each task of `newly_parentless` that is collectible becomes a job, and, in
    /// an incremental pass, each that is blocked goes on the dead list.
    fn gc_cascade(
        &mut self,
        newly_parentless: &Vec<TaskId>,
        mode: GcMode,
        counters: &mut GcCounters,
    ) -> (more: Vec<GcJob>)
        requires
            old(self).wf(),
            newly_parentless@.no_duplicates(),
            forall|c: TaskId| #[trigger]
                newly_parentless@.contains(c) ==> old(self).storage@.contains_key(c)
                    && !transient(c),
            mode == GcMode::Incremental ==> old(counters).requeued + newly_parentless@.to_set().filter(
                |c: TaskId| !collectible(c, old(self).storage@[c]),
            ).len() <= usize::MAX,
        ensures
            final(self).wf(),
            final(self).gc == old(self).gc,
            final(self).stopping == old(self).stopping,
            final(self).storage@ == old(self).storage@,
            final(counters).collected == old(counters).collected,
            final(counters).dropped_stale == old(counters).dropped_stale,
            job_tasks(more@).to_multiset() == Multiset::from_set(
                newly_parentless@.to_set().filter(
                    |c: TaskId| collectible(c, old(self).storage@[c]),
                ),
            ),
            ({
                let blocked = newly_parentless@.to_set().filter(
                    |c: TaskId| !collectible(c, old(self).storage@[c]),
                );
                if mode == GcMode::Incremental {
                    &&& final(self).gc_dead_list@ == old(self).gc_dead_list@.union(blocked)
                    &&& final(counters).requeued == old(counters).requeued + blocked.len()
                } else {
                    &&& final(self).gc_dead_list@ == old(self).gc_dead_list@
                    &&& final(counters).requeued == old(counters).requeued
                }
            }),
    {
        let mut more: Vec<GcJob> = Vec::new();
        let mut i: usize = 0;
        let ghost g = self.storage@;
        let ghost z = newly_parentless@;
        let ghost free = |c: TaskId| collectible(c, g[c]);
        let ghost blocked = |c: TaskId| !collectible(c, g[c]);
        let ghost dead0 = self.gc_dead_list@;
        let ghost mut held = Set::<TaskId>::empty();
        assert(job_tasks(more@) =~= Seq::empty());
        assert(dead0.union(held) =~= dead0);
        while i < newly_parentless.len()
            invariant
                i <= z.len(),
                z == newly_parentless@,
                z.no_duplicates(),
                self.wf(),
                self.storage@ == g,
                self.gc == old(self).gc,
                self.stopping == old(self).stopping,
                forall|c: TaskId| #[trigger] z.contains(c) ==> g.contains_key(c) && !transient(c),
                free == (|c: TaskId| collectible(c, g[c])),
                blocked == (|c: TaskId| !collectible(c, g[c])),
                counters.collected == old(counters).collected,
                counters.dropped_stale == old(counters).dropped_stale,
                mode == GcMode::Incremental ==> old(counters).requeued + z.to_set().filter(
                    blocked,
                ).len() <= usize::MAX,
                job_tasks(more@).no_duplicates(),
                forall|c: TaskId| #[trigger]
                    job_tasks(more@).contains(c) == (z.take(i as int).contains(c) && free(c)),
                held.finite(),
                forall|c: TaskId| #[trigger]
                    held.contains(c) == (z.take(i as int).contains(c) && blocked(c)),
                mode == GcMode::Incremental ==> self.gc_dead_list@ == dead0.union(held)
                    && counters.requeued == old(counters).requeued + held.len(),
                mode != GcMode::Incremental ==> self.gc_dead_list@ == dead0 && counters.requeued
                    == old(counters).requeued,
            decreases z.len() - i,
        {
            let child = newly_parentless[i];
            let ghost seen = z.take(i as int);
            let ghost jobs = job_tasks(more@);
            proof {
                assert(z.contains(child));
                assert(!seen.contains(child)) by {
                    if seen.contains(child) {
                        let k = choose|k: int| 0 <= k < seen.len() && seen[k] == child;
                        assert(z[k] == z[i as int]);
                    }
                }
                assert(!jobs.contains(child));
                assert(!held.contains(child));
                assert(z.take(i + 1) =~= seen.push(child));
                lemma_push_contains(seen, child);
            }
            let task = self.storage.get(child).unwrap();
            if task.is_gc_collectible(child) {
                more.push(GcJob::Collect(child));
                proof {
                    assert(job_tasks(more@) =~= jobs.push(child));
                    lemma_push_contains(jobs, child);
                }
            } else {
                proof {
                    let wider = held.insert(child);
                    assert forall|c: TaskId| wider.contains(c) implies z.to_set().filter(
                        blocked,
                    ).contains(c) by {
                        if c != child {
                            assert(held.contains(c));
                            let k = choose|k: int| 0 <= k < seen.len() && seen[k] == c;
                            assert(z[k] == c);
                        }
                    }
                    vstd::set_lib::lemma_len_subset(wider, z.to_set().filter(blocked));
                    assert(dead0.union(held).insert(child) =~= dead0.union(wider));
                    held = wider;
                }
                if mode == GcMode::Incremental {
                    self.gc_dead_list.insert(child);
                    counters.requeued = counters.requeued + 1;
                }
            }
            i = i + 1;
        }
        proof {
            assert(z.take(i as int) =~= z);
            assert(held =~= z.to_set().filter(blocked));
            assert(job_tasks(more@).to_set() =~= z.to_set().filter(free));
            lemma_listed_once(job_tasks(more@));
        }
        more
    }

    /// Marks a collected task deleted: it stays resident, but the next snapshot writes a tombstone in
    /// place of it. Its edges are gone by then, its follower edges too.
    pub fn gc_mark_deleted(&mut self, task_id: TaskId)
        requires
            old(self).storage.wf(),
            old(self).storage@.contains_key(task_id),
            old(self).storage@[task_id].followers.is_empty(),
        ensures
            final(self).storage.wf(),
            final(self).storage@ == marked_deleted(old(self).storage@, task_id),
            final(self).gc_dead_list@ == old(self).gc_dead_list@,
            final(self).gc == old(self).gc,
            final(self).stopping == old(self).stopping,
    {
        self.storage.mark_deleted(task_id);
    }

    /// Pins `task`: counts a reference to it from outside the tracked graph. While there is one the task
    /// is not collected. Once the backend is stopping, and for a task without an entry in memory,
    /// nothing happens.
    pub fn gc_pin(&mut self, task: TaskId)
        requires
            old(self).wf(),
            !old(self).stopping && resident(old(self).storage@, task)
                ==> old(self).storage@[task].transient_ref_count < u32::MAX,
        ensures
            final(self).wf(),
            final(self).gc == old(self).gc,
            final(self).stopping == old(self).stopping,
            final(self).gc_dead_list@ == old(self).gc_dead_list@,
            final(self).storage@ == if !old(self).stopping && resident(old(self).storage@, task) {
                pinned(old(self).storage@, task)
            } else {
                old(self).storage@
            },
    {
        if self.stopping {
            return;
        }
        self.storage.gc_increment_transient_ref_count(task);
    }

    /// Takes a pin of `task` back. Once the backend is stopping, and for a task without an entry in
    /// memory, nothing happens. The dead list is not told: a candidate that was only pinned is on it
    /// already.
    pub fn gc_unpin(&mut self, task: TaskId)
        requires
            old(self).wf(),
            !old(self).stopping && resident(old(self).storage@, task)
                ==> old(self).storage@[task].transient_ref_count > transient_parents(
                old(self).storage@,
                task,
            ).len(),
        ensures
            final(self).wf(),
            final(self).gc == old(self).gc,
            final(self).stopping == old(self).stopping,
            final(self).gc_dead_list@ == old(self).gc_dead_list@,
            final(self).storage@ == if !old(self).stopping && resident(old(self).storage@, task) {
                unpinned(old(self).storage@, task)
            } else {
                old(self).storage@
            },
    {
        if self.stopping {
            return;
        }
        self.storage.gc_decrement_transient_ref_count(task);
    }

    /// Records `task_id` as a garbage candidate on the dead list, if this backend runs incremental GC.
    /// Transient tasks are never collected, and never recorded.
    pub fn gc_record_dead_candidate(&mut self, task_id: TaskId)
        requires
            old(self).wf(),
            old(self).gc == Some(GcMode::Incremental) && !transient(task_id)
                ==> old(self).storage@.contains_key(task_id),
        ensures
            final(self).wf(),
            final(self).gc == old(self).gc,
            final(self).stopping == old(self).stopping,
            final(self).storage@ == old(self).storage@,
            final(self).gc_dead_list@ == if old(self).gc == Some(GcMode::Incremental) && !transient(
                task_id,
            ) {
                old(self).gc_dead_list@.insert(task_id)
            } else {
                old(self).gc_dead_list@
            },
    {
        match self.gc {
            Some(GcMode::Incremental) => {},
            _ => {
                return;
            },
        }
        if is_transient(task_id) {
            return;
        }
        self.gc_dead_list.insert(task_id);
    }

    /// Takes the edge from `parent` to `child` out, as change propagation does when `parent` no longer
    /// reads `child`. If this drops the last reference to the child, the child is recorded on the
    /// dead list.
    pub fn disconnect_child(&mut self, parent: TaskId, child: TaskId)
        requires
            old(self).wf(),
            old(self).storage@.contains_key(parent),
            old(self).storage@[parent].children.contains(child),
        ensures
            final(self).wf(),
            final(self).gc == old(self).gc,
            final(self).stopping == old(self).stopping,
            final(self).storage@ == unlinked(old(self).storage@, parent, child),
            final(self).gc_dead_list@ == recorded(
                old(self).gc,
                old(self).storage@,
                old(self).gc_dead_list@,
                parent,
                child,
            ),
    {
        proof {
            lemma_unlinked_wf(self.storage@, parent, child);
        }
        if self.storage.unlink_child(parent, child) {
            self.gc_record_dead_candidate(child);
        }
    }

    /// Runs a full GC pass and returns the number of tasks collected. Uses the backend's GC mode, and
    /// a scan when GC is not configured.
    pub fn gc_for_testing(&mut self) -> (collected: usize)
        requires
            old(self).wf(),
        ensures
            final(self).wf(),
            exists|stats: GcPassStats| #[trigger]
                passed(mode_or_scan(old(self).gc), *old(self), *final(self), stats)
                    && stats.collected == collected && came_to(
                    mode_or_scan(old(self).gc),
                    *old(self),
                    *final(self),
                    stats,
                ),
    {
        let mode = match self.gc {
            Some(mode) => mode,
            None => GcMode::Scan,
        };
        self.gc_stats_for_testing(mode).collected
    }

    /// Like [`Self::gc_for_testing`], but runs the pass in an explicit mode and returns the full
    /// [`GcPassStats`]. An incremental pass only sees candidates recorded while the backend ran
    /// incremental GC.
    pub fn gc_stats_for_testing(&mut self, mode: GcMode) -> (stats: GcPassStats)
        requires
            old(self).wf(),
        ensures
            final(self).wf(),
            passed(mode, *old(self), *final(self), stats),
            came_to(mode, *old(self), *final(self), stats),
            no_longer(stats.seed_duration, stats.total_duration),
    {
        self.gc_collect(mode)
    }

    /// Reports why `task_id` is not collectible now, or `None` if it is.
    pub fn gc_uncollectible_reason_for_testing(&self, task_id: TaskId) -> (reason: Option<String>)
        requires
            self.wf(),
        ensures
            transient(task_id) ==> (reason matches Some(text) && text@ == "transient id"@),
            !transient(task_id) && !resident(self.storage@, task_id) ==> (reason matches Some(text)
                && text@ == "not resident"@),
            !transient(task_id) && resident(self.storage@, task_id) ==> {
                let why = reasons(self.storage@[task_id]);
                &&& reason is None <==> why.len() == 0
                &&& reason matches Some(text) ==> text@ == joined(why)
            },
    {
        if is_transient(task_id) {
            return Some("transient id".to_owned());
        }
        match self.storage.get(task_id) {
            None => Some("not resident".to_owned()),
            Some(task) => {
                if task.residency == Residency::Disk {
                    Some("not resident".to_owned())
                } else {
                    task.gc_uncollectible_reason()
                }
            },
        }
    }

    /// The resident tasks that are garbage but blocked, each with the reason.
    pub fn gc_blocked_tasks_for_testing(&self) -> (blocked: Vec<(TaskId, String)>)
        requires
            self.wf(),
        ensures
            forall|i: int, j: int|
                0 <= i < j < blocked@.len() ==> (#[trigger] blocked@[i]).0 != (
                #[trigger] blocked@[j]).0,
            forall|i: int|
                0 <= i < blocked@.len() ==> parentless_but_blocked(
                    self.storage@,
                    (#[trigger] blocked@[i]).0,
                ) && blocked@[i].1@ == joined(reasons(self.storage@[blocked@[i].0])),
            forall|t: TaskId| #[trigger]
                parentless_but_blocked(self.storage@, t) ==> exists|i: int|
                    0 <= i < blocked@.len() && (#[trigger] blocked@[i]).0 == t,
    {
        let all = self.storage.task_ids();
        let mut blocked: Vec<(TaskId, String)> = Vec::new();
        let mut k: usize = 0;
        let ghost g = self.storage@;
        while k < all.len()
            invariant
                self.wf(),
                g == self.storage@,
                k <= all@.len(),
                all@.no_duplicates(),
                all@.to_set() == g.dom(),
                forall|i: int, j: int|
                    0 <= i < j < blocked@.len() ==> (#[trigger] blocked@[i]).0 != (
                    #[trigger] blocked@[j]).0,
                forall|i: int|
                    0 <= i < blocked@.len() ==> all@.take(k as int).contains(
                        (#[trigger] blocked@[i]).0,
                    ) && parentless_but_blocked(g, blocked@[i].0) && blocked@[i].1@ == joined(
                        reasons(g[blocked@[i].0]),
                    ),
                forall|t: TaskId|
                    all@.take(k as int).contains(t) && #[trigger] parentless_but_blocked(g, t)
                        ==> exists|i: int|
                        0 <= i < blocked@.len() && (#[trigger] blocked@[i]).0 == t,
            decreases all@.len() - k,
        {
            let task_id = all[k];
            let ghost seen = all@.take(k as int);
            let ghost before = blocked@;
            assert(all@.to_set().contains(task_id));
            proof {
                assert(!seen.contains(task_id));
                assert(all@.take(k + 1) =~= seen.push(task_id));
                lemma_push_contains(seen, task_id);
            }
            let task = self.storage.get(task_id).unwrap();
            if task.residency != Residency::Disk && task.gc_is_still_parentless(task_id) {
                match task.gc_uncollectible_reason() {
                    None => {},
                    Some(reason) => {
                        blocked.push((task_id, reason));
                        assert(blocked@[before.len() as int].0 == task_id);
                    },
                }
            }
            proof {
                assert forall|t: TaskId|
                    all@.take(k + 1).contains(t) && #[trigger] parentless_but_blocked(
                        g,
                        t,
                    ) implies exists|i: int|
                    0 <= i < blocked@.len() && (#[trigger] blocked@[i]).0 == t by {
                    if t != task_id {
                        let i = choose|i: int|
                            0 <= i < before.len() && (#[trigger] before[i]).0 == t;
                        assert(blocked@[i].0 == t);
                    }
                }
            }
            k = k + 1;
        }
        proof {
            assert(all@.take(k as int) =~= all@);
            assert forall|t: TaskId| #[trigger] parentless_but_blocked(g, t) implies exists|i: int|
                0 <= i < blocked@.len() && (#[trigger] blocked@[i]).0 == t by {
                assert(all@.to_set().contains(t));
            }
        }
        blocked
    }
}

/// The mode of a pass that is not told one.
pub open spec fn mode_or_scan(gc: Option<GcMode>) -> GcMode {
    match gc {
        Some(mode) => mode,
        None => GcMode::Scan,
    }
}

/// Whether `t` has an entry in memory, and is garbage that some test holds back.
pub open spec fn parentless_but_blocked(g: Graph, t: TaskId) -> bool {
    resident(g, t) && still_parentless(t, g[t]) && reasons(g[t]).len() > 0
}

/// A job for each task of a list without duplicates is a job for each member of its set.
proof fn lemma_listed_once(s: Seq<TaskId>)
    requires
        s.no_duplicates(),
    ensures
        s.to_multiset() =~= Multiset::from_set(s.to_set()),
{
    broadcast use group_multiset_axioms;
    broadcast use vstd::seq_lib::group_to_multiset_ensures;

    s.lemma_multiset_has_no_duplicates();
    vstd::seq_lib::seq_to_set_is_finite(s);
    lemma_from_set(s.to_set());
    assert forall|x: TaskId| s.to_multiset().count(x) == Multiset::from_set(s.to_set()).count(x) by {
        assert(s.contains(x) <==> s.to_multiset().count(x) > 0);
        if s.contains(x) {
            assert(s.to_multiset().contains(x));
        }
    }
}

/// The teardown of a collectible task keeps the graph well-formed.
proof fn lemma_collected_wf(g: Graph, t: TaskId)
    requires
        graph_wf(g),
        g.contains_key(t),
        collectible(t, g[t]),
    ensures
        graph_wf(torn_down(g, set![t])),
        torn_down(g, set![t]).dom() == g.dom(),
{
    lemma_parentless(g, t);
    lemma_torn_wf(g, set![t]);
}

} // verus!
