//! What can be relied upon when the functions are called: each law speaks of a call, or of two calls one
//! after the other, by what goes in and what comes out.
use vstd::multiset::Multiset;
use vstd::prelude::*;
use vstd::set_lib::lemma_set_subset_finite;
use vstd::std_specs::cmp::PartialOrdSpec;
use crate::behaviour::{
    law_aggregation_edges_taken_out, law_blocked_tasks_are_held_back_garbage, law_child_edge_taken_out,
    law_collected_are_counted, law_collected_was_garbage, law_cut_records_what_it_leaves_unreferenced,
    law_edges_given_up, law_job_on_a_stale_candidate, law_job_on_garbage,
    law_listed_garbage_is_collected, law_mark_stays_for_the_snapshot, law_new_aggregation_edge,
    law_new_child_edge, law_new_dependency, law_new_task, law_pins_count_one_by_one,
    law_resident_garbage_is_collected, law_survivor_is_left_as_it_was,
};
use crate::file_source::{
    law_errors_say_what_they_are, AssetContent, AssetIdent, ContentReply, ContentRequest, ContentStep,
    FileSource, SourceError,
};
use crate::gc::{job_tasks, under_way, GcJob, TurboTasksBackend};
use crate::graph::{graph_wf, transient_parents};
use crate::lazy_reveal::{
    is_lazy_path, is_module_deferred, law_lazy_in_the_name, law_lazy_paths_by_name,
    law_marker_is_next_to_its_source, reveal_marker, reveal_path, LazyRevealRegistry, Session,
};
use crate::mode::{gc_env_is_valid, gc_mode_from_env, EnvVar, GcMode};
use crate::path::{
    law_part_stands_between, law_path_is_directory_and_name, name_has_part, sibling, FileContent,
    FileSystemEntryType, FileSystemPath, LinkContent,
};
use crate::pass::{job_step, lemma_from_set, spawned};
use crate::reason::law_reasons_name_the_failing_tests;
use crate::stats::{GcCounters, GcPassStats};
use crate::storage::Storage;
use crate::task::{
    law_task_is_read_as_it_is, CellRef, CollectiblesRef, Dependent, HashedCellRef, OutdatedEdge,
    Residency, TaskId, TaskStorage,
};
use crate::teardown::cleaned;
use std::time::Duration;

verus! {

/// A call of `gc_collect` in incremental mode collects every task of the dead list that no persistent
/// task has as a child, that is not held from outside, not active, not in progress, not deleted and below
/// no aggregation node.
pub proof fn law_collect_takes_listed_garbage(
    backend: &mut TurboTasksBackend,
    stats: GcPassStats,
    t: TaskId,
)
    requires
        old(backend).wf(),
        call_ensures(TurboTasksBackend::gc_collect, (backend, GcMode::Incremental), stats),
        old(backend).gc_dead_list@.contains(t),
        t < 0x8000_0000,
        old(backend).storage@[t].parent_count == 0,
        old(backend).storage@[t].transient_ref_count == 0,
        !old(backend).storage@[t].active,
        !old(backend).storage@[t].in_progress,
        !old(backend).storage@[t].deleted,
        forall|u: TaskId| !old(backend).storage@[t].uppers.contains(u),
    ensures
        final(backend).storage@[t].deleted,
        stats.collected >= 1,
{
    law_listed_garbage_is_collected(*old(backend), *final(backend), stats, t);
}

/// A call of `gc_collect` that scans collects every such task that is in memory.
pub proof fn law_collect_takes_resident_garbage(
    backend: &mut TurboTasksBackend,
    stats: GcPassStats,
    t: TaskId,
)
    requires
        old(backend).wf(),
        call_ensures(TurboTasksBackend::gc_collect, (backend, GcMode::Scan), stats),
        old(backend).storage@.contains_key(t),
        old(backend).storage@[t].residency == Residency::Restored,
        t < 0x8000_0000,
        old(backend).storage@[t].parent_count == 0,
        old(backend).storage@[t].transient_ref_count == 0,
        !old(backend).storage@[t].active,
        !old(backend).storage@[t].in_progress,
        !old(backend).storage@[t].deleted,
        forall|u: TaskId| !old(backend).storage@[t].uppers.contains(u),
    ensures
        final(backend).storage@[t].deleted,
        stats.collected >= 1,
{
    law_resident_garbage_is_collected(*old(backend), *final(backend), stats, t);
}

/// A call of `gc_collect` takes nothing but garbage, counts what it takes, and leaves the other tasks what
/// they hold. The seeding is part of the time that it took.
pub proof fn law_collect_takes_garbage_only(
    backend: &mut TurboTasksBackend,
    mode: GcMode,
    stats: GcPassStats,
    t: TaskId,
    q: TaskId,
    dep: Dependent,
)
    requires
        old(backend).wf(),
        call_ensures(TurboTasksBackend::gc_collect, (backend, mode), stats),
        old(backend).storage@.contains_key(t),
    ensures
        ({
            let g = old(backend).storage@;
            let h = final(backend).storage@;
            &&& final(backend).wf()
            &&& h.dom() == g.dom()
            &&& h[t].deleted && !g[t].deleted ==> {
                &&& t < 0x8000_0000
                &&& g[t].transient_ref_count == 0
                &&& !g[t].active
                &&& !g[t].in_progress
                &&& g.contains_key(q) && g[q].children.contains(t) ==> h[q].deleted
                &&& g[t].uppers.contains(q) ==> h[q].deleted
            }
            &&& h[t].deleted == g[t].deleted ==> {
                &&& h[t].children == g[t].children
                &&& h[t].dependencies == g[t].dependencies
                &&& h[t].followers == g[t].followers
                &&& h[t].transient_ref_count == g[t].transient_ref_count
                &&& h[t].active == g[t].active
                &&& h[t].in_progress == g[t].in_progress
                &&& h[t].dirty == g[t].dirty
            }
            &&& g[t].deleted ==> h[t].deleted
            &&& stats.mode == mode
            &&& stats.collected == Set::new(
                |t: TaskId| g.contains_key(t) && h[t].deleted && !g[t].deleted,
            ).len()
            &&& mode == GcMode::Incremental ==> stats.seed_candidates == old(
                backend,
            ).gc_dead_list@.len()
            &&& stats.seed_duration.partial_cmp_spec(&stats.total_duration) == Some(
                core::cmp::Ordering::Less,
            ) || stats.seed_duration.partial_cmp_spec(&stats.total_duration) == Some(
                core::cmp::Ordering::Equal,
            )
        }),
{
    law_collected_are_counted(mode, *old(backend), *final(backend), stats);
    let g = old(backend).storage@;
    let h = final(backend).storage@;
    assert(h.contains_key(t));
    if h[t].deleted && !g[t].deleted {
        law_collected_was_garbage(mode, *old(backend), *final(backend), stats, t, q);
    }
    if h[t].deleted == g[t].deleted {
        law_survivor_is_left_as_it_was(mode, *old(backend), *final(backend), stats, t, q, dep);
    }
}

/// A call of `gc_stats_for_testing` collects the same garbage in the mode that it is given.
pub proof fn law_stats_for_testing_collects(
    backend: &mut TurboTasksBackend,
    mode: GcMode,
    stats: GcPassStats,
    t: TaskId,
)
    requires
        old(backend).wf(),
        call_ensures(TurboTasksBackend::gc_stats_for_testing, (backend, mode), stats),
        old(backend).storage@.contains_key(t),
        t < 0x8000_0000,
        old(backend).storage@[t].parent_count == 0,
        old(backend).storage@[t].transient_ref_count == 0,
        !old(backend).storage@[t].active,
        !old(backend).storage@[t].in_progress,
        !old(backend).storage@[t].deleted,
        forall|u: TaskId| !old(backend).storage@[t].uppers.contains(u),
    ensures
        ({
            let g = old(backend).storage@;
            let h = final(backend).storage@;
            &&& stats.mode == mode
            &&& stats.collected == Set::new(
                |t: TaskId| g.contains_key(t) && h[t].deleted && !g[t].deleted,
            ).len()
            &&& mode == GcMode::Incremental && old(backend).gc_dead_list@.contains(t) ==> h[t].deleted
            &&& mode == GcMode::Scan && g[t].residency == Residency::Restored ==> h[t].deleted
        }),
{
    law_collected_are_counted(mode, *old(backend), *final(backend), stats);
    if mode == GcMode::Incremental && old(backend).gc_dead_list@.contains(t) {
        law_listed_garbage_is_collected(*old(backend), *final(backend), stats, t);
    }
    if mode == GcMode::Scan && old(backend).storage@[t].residency == Residency::Restored {
        law_resident_garbage_is_collected(*old(backend), *final(backend), stats, t);
    }
}

/// A call of `gc_for_testing` does so in incremental mode if that is configured, and by a scan if not. Its
/// result is the number of collected tasks.
pub proof fn law_gc_for_testing_collects(
    backend: &mut TurboTasksBackend,
    collected: usize,
    t: TaskId,
)
    requires
        old(backend).wf(),
        call_ensures(TurboTasksBackend::gc_for_testing, (backend,), collected),
        old(backend).storage@.contains_key(t),
        t < 0x8000_0000,
        old(backend).storage@[t].parent_count == 0,
        old(backend).storage@[t].transient_ref_count == 0,
        !old(backend).storage@[t].active,
        !old(backend).storage@[t].in_progress,
        !old(backend).storage@[t].deleted,
        forall|u: TaskId| !old(backend).storage@[t].uppers.contains(u),
    ensures
        ({
            let g = old(backend).storage@;
            let h = final(backend).storage@;
            &&& collected == Set::new(
                |t: TaskId| g.contains_key(t) && h[t].deleted && !g[t].deleted,
            ).len()
            &&& old(backend).gc == Some(GcMode::Incremental) && old(backend).gc_dead_list@.contains(t)
                ==> h[t].deleted
            &&& old(backend).gc != Some(GcMode::Incremental) && g[t].residency == Residency::Restored
                ==> h[t].deleted
        }),
{
    let mode = if old(backend).gc == Some(GcMode::Incremental) {
        GcMode::Incremental
    } else {
        GcMode::Scan
    };
    assert(crate::gc::mode_or_scan(old(backend).gc) == mode);
    let stats = choose|stats: GcPassStats| #[trigger]
        crate::gc::passed(mode, *old(backend), *final(backend), stats) && stats.collected == collected;
    law_collected_are_counted(mode, *old(backend), *final(backend), stats);
    if old(backend).gc == Some(GcMode::Incremental) {
        if old(backend).gc_dead_list@.contains(t) {
            law_listed_garbage_is_collected(*old(backend), *final(backend), stats, t);
        }
    } else if old(backend).storage@[t].residency == Residency::Restored {
        law_resident_garbage_is_collected(*old(backend), *final(backend), stats, t);
    }
}

/// A job on garbage collects its task, counts it, and hands out one job for each child that it leaves
/// without a persistent parent and that nothing holds back.
pub proof fn law_job_collects_garbage(
    backend: &mut TurboTasksBackend,
    job: GcJob,
    mode: GcMode,
    counters: &mut GcCounters,
    more: Vec<GcJob>,
    c: TaskId,
    dep: Dependent,
)
    requires
        old(backend).wf(),
        call_ensures(TurboTasksBackend::gc_run_job, (backend, job, mode, counters), more),
        old(backend).storage@.contains_key(job.task()),
        job.task() < 0x8000_0000,
        old(backend).storage@[job.task()].parent_count == 0,
        old(backend).storage@[job.task()].transient_ref_count == 0,
        !old(backend).storage@[job.task()].active,
        !old(backend).storage@[job.task()].in_progress,
        !old(backend).storage@[job.task()].deleted,
        forall|u: TaskId| !old(backend).storage@[job.task()].uppers.contains(u),
        old(backend).storage@.contains_key(c),
        c != job.task(),
    ensures
        ({
            let g = old(backend).storage@;
            let h = final(backend).storage@;
            let t = job.task();
            let orphan = g[t].children.contains(c) && h[c].parent_count == 0;
            let free = h[c].transient_ref_count == 0 && !h[c].active && !h[c].in_progress
                && !h[c].deleted && h[c].uppers.is_empty();
            &&& h.dom() == g.dom()
            &&& h[t].deleted && h[t].modified
            &&& h[t].children.is_empty() && h[t].dependencies.is_empty() && h[t].followers.is_empty()
            &&& h[c].deleted == g[c].deleted
            &&& h[c].children == g[c].children
            &&& h[c].uppers == g[c].uppers.remove(t)
            &&& g[t].children.contains(c) ==> h[c].parent_count + 1 == g[c].parent_count
            &&& !g[t].children.contains(c) ==> h[c].parent_count == g[c].parent_count
            &&& h[c].dependents.contains(dep) <==> g[c].dependents.contains(dep) && dep.task != t
            &&& final(counters).collected == old(counters).collected + 1
            &&& final(counters).dropped_stale == old(counters).dropped_stale
            &&& mode == GcMode::Scan ==> final(counters).requeued == old(counters).requeued
            &&& (exists|i: int| 0 <= i < more@.len() && #[trigger] more@[i] == GcJob::Collect(c))
                <==> orphan && free
            &&& final(backend).gc_dead_list@.contains(c) <==> old(backend).gc_dead_list@.contains(c) || (
            mode == GcMode::Incremental && orphan && !free)
        }),
{
    let t = job.task();
    let s = under_way(*old(backend), Multiset::singleton(t), *old(counters));
    let bare = under_way(*old(backend), Multiset::empty(), *old(counters));
    let n = job_step(mode, s, t);
    assert(old(backend).storage@[t].uppers =~= Set::empty());
    law_job_on_garbage(mode, s, t, c, dep);
    assert(job_step(mode, bare, t).tasks == n.tasks);
    let fresh = spawned(s.tasks, t);
    assert(fresh.subset_of(s.tasks.dom()));
    lemma_set_subset_finite(s.tasks.dom(), fresh);
    lemma_from_set(fresh);
    broadcast use vstd::multiset::group_multiset_axioms;
    assert(n.pending.count(c) == (if fresh.contains(c) { 1nat } else { 0 }));
    let tasks = job_tasks(more@);
    vstd::seq_lib::to_multiset_contains(tasks, c);
    if tasks.contains(c) {
        let i = choose|i: int| 0 <= i < tasks.len() && tasks[i] == c;
        assert(more@[i] == GcJob::Collect(c));
    }
    if exists|i: int| 0 <= i < more@.len() && #[trigger] more@[i] == GcJob::Collect(c) {
        let i = choose|i: int| 0 <= i < more@.len() && #[trigger] more@[i] == GcJob::Collect(c);
        assert(tasks[i] == c);
    }
}

/// A job on anything else hands out no job and collects nothing. If its task is garbage that something
/// holds back, the task goes on the dead list and is counted as put back; if not, it is counted as stale.
pub proof fn law_job_leaves_the_rest(
    backend: &mut TurboTasksBackend,
    job: GcJob,
    mode: GcMode,
    counters: &mut GcCounters,
    more: Vec<GcJob>,
    x: TaskId,
)
    requires
        call_ensures(TurboTasksBackend::gc_run_job, (backend, job, mode, counters), more),
        old(backend).storage@.contains_key(job.task()),
        old(backend).storage@.contains_key(x),
        job.task() >= 0x8000_0000 || old(backend).storage@[job.task()].parent_count > 0 || old(
            backend,
        ).storage@[job.task()].transient_ref_count > 0 || old(backend).storage@[job.task()].active
            || old(backend).storage@[job.task()].in_progress || old(
            backend,
        ).storage@[job.task()].deleted || exists|u: TaskId|
            old(backend).storage@[job.task()].uppers.contains(u),
    ensures
        ({
            let g = old(backend).storage@;
            let h = final(backend).storage@;
            let t = job.task();
            let garbage = t < 0x8000_0000 && g[t].parent_count == 0 && !g[t].deleted;
            &&& more@.len() == 0
            &&& h[x].deleted == g[x].deleted
            &&& h[x].children == g[x].children
            &&& h[x].parent_count == g[x].parent_count
            &&& h[x].uppers == g[x].uppers
            &&& final(counters).collected == old(counters).collected
            &&& garbage ==> final(backend).gc_dead_list@ == old(backend).gc_dead_list@.insert(t)
                && final(counters).requeued == old(counters).requeued + 1
                && final(counters).dropped_stale == old(counters).dropped_stale
            &&& !garbage ==> final(backend).gc_dead_list@ == old(backend).gc_dead_list@
                && final(counters).requeued == old(counters).requeued
                && final(counters).dropped_stale == old(counters).dropped_stale + 1
        }),
{
    broadcast use vstd::multiset::group_multiset_axioms;

    let t = job.task();
    let s = under_way(*old(backend), Multiset::singleton(t), *old(counters));
    law_job_on_a_stale_candidate(mode, s, t, x);
    vstd::seq_lib::to_multiset_len(job_tasks(more@));
    assert(job_tasks(more@).len() == more@.len());
}

/// A new backend has no tasks and no candidates, is not stopping, and runs GC as it was told.
pub proof fn law_new_backend_is_empty(gc: Option<GcMode>, backend: TurboTasksBackend, t: TaskId)
    requires
        call_ensures(TurboTasksBackend::new, (gc,), backend),
    ensures
        backend.gc == gc,
        !backend.stopping,
        !backend.storage@.contains_key(t),
        !backend.gc_dead_list@.contains(t),
        backend.wf(),
{
}

/// A call of `disconnect_child` takes the edge out, and records the child if this leaves it without a
/// persistent parent and without a reference from outside, whoever the parent was, or without its last
/// persistent parent. Nothing else is recorded, and nothing is taken off the list.
pub proof fn law_disconnect_records_the_unreferenced(
    backend: &mut TurboTasksBackend,
    p: TaskId,
    c: TaskId,
    x: TaskId,
    y: TaskId,
)
    requires
        old(backend).wf(),
        call_ensures(TurboTasksBackend::disconnect_child, (backend, p, c), ()),
        old(backend).storage@.contains_key(p),
        old(backend).storage@[p].children.contains(c),
        old(backend).storage@.contains_key(x),
    ensures
        ({
            let g = old(backend).storage@;
            let h = final(backend).storage@;
            let before = old(backend).gc_dead_list@;
            let after = final(backend).gc_dead_list@;
            &&& final(backend).wf()
            &&& h.dom() == g.dom()
            &&& h[x].children.contains(y) <==> g[x].children.contains(y) && !(x == p && y == c)
            &&& p < 0x8000_0000 ==> h[c].parent_count + 1 == g[c].parent_count
            &&& p >= 0x8000_0000 ==> h[c].transient_ref_count + 1 == g[c].transient_ref_count
            &&& h[x].deleted == g[x].deleted
            &&& old(backend).gc == Some(GcMode::Incremental) && c < 0x8000_0000 && h[c].parent_count == 0
                && h[c].transient_ref_count == 0 ==> after.contains(c)
            &&& old(backend).gc == Some(GcMode::Incremental) && c < 0x8000_0000 && p < 0x8000_0000
                && h[c].parent_count == 0 ==> after.contains(c)
            &&& before.contains(x) ==> after.contains(x)
            &&& after.contains(x) && !before.contains(x) ==> x == c && c < 0x8000_0000
                && h[c].parent_count == 0 && old(backend).gc == Some(GcMode::Incremental)
        }),
{
    let g = old(backend).storage@;
    law_child_edge_taken_out(g, p, c, x, y);
    assert(g.contains_key(c));
    law_child_edge_taken_out(g, p, c, c, y);
    law_cut_records_what_it_leaves_unreferenced(g, old(backend).gc_dead_list@, p, c, x);
}

/// A call of `gc_record_dead_candidate` puts a persistent task on the dead list of a backend that runs
/// incremental GC, and does nothing otherwise.
pub proof fn law_record_is_for_incremental_gc(backend: &mut TurboTasksBackend, t: TaskId, x: TaskId)
    requires
        call_ensures(TurboTasksBackend::gc_record_dead_candidate, (backend, t), ()),
    ensures
        final(backend).storage@ == old(backend).storage@,
        t < 0x8000_0000 && old(backend).gc == Some(GcMode::Incremental)
            ==> final(backend).gc_dead_list@.contains(t),
        x != t ==> final(backend).gc_dead_list@.contains(x) == old(backend).gc_dead_list@.contains(x),
        t >= 0x8000_0000 || old(backend).gc != Some(GcMode::Incremental)
            ==> final(backend).gc_dead_list@ == old(backend).gc_dead_list@,
{
}

/// A pin counts one reference to its task, whatever the task is like, if the task has an entry in memory
/// and the backend is not stopping; else nothing happens.
pub proof fn law_pin_counts_a_reference(backend: &mut TurboTasksBackend, t: TaskId, x: TaskId)
    requires
        call_ensures(TurboTasksBackend::gc_pin, (backend, t), ()),
    ensures
        ({
            let g = old(backend).storage@;
            let h = final(backend).storage@;
            &&& final(backend).gc_dead_list@ == old(backend).gc_dead_list@
            &&& !old(backend).stopping && g.contains_key(t) && g[t].residency != Residency::Disk ==> {
                &&& h[t].transient_ref_count == g[t].transient_ref_count + 1
                &&& h[t].parent_count == g[t].parent_count
                &&& h[t].deleted == g[t].deleted
                &&& h[t].children == g[t].children
                &&& h[t].uppers == g[t].uppers
                &&& h.dom() == g.dom()
                &&& x != t && g.contains_key(x) ==> h[x] == g[x]
            }
            &&& old(backend).stopping || !g.contains_key(t) || g[t].residency == Residency::Disk
                ==> h == g
        }),
{
    let g = old(backend).storage@;
    if g.contains_key(t) {
        if g.contains_key(x) {
            law_pins_count_one_by_one(g, t, x);
        }
        law_pins_count_one_by_one(g, t, t);
    }
}

/// An unpin takes one reference back, under the same conditions.
pub proof fn law_unpin_takes_a_reference_back(backend: &mut TurboTasksBackend, t: TaskId, x: TaskId)
    requires
        call_ensures(TurboTasksBackend::gc_unpin, (backend, t), ()),
        old(backend).storage@.contains_key(t) ==> old(backend).storage@[t].transient_ref_count > 0,
    ensures
        ({
            let g = old(backend).storage@;
            let h = final(backend).storage@;
            &&& final(backend).gc_dead_list@ == old(backend).gc_dead_list@
            &&& !old(backend).stopping && g.contains_key(t) && g[t].residency != Residency::Disk ==> {
                &&& h[t].transient_ref_count + 1 == g[t].transient_ref_count
                &&& x != t && g.contains_key(x) ==> h[x] == g[x]
            }
            &&& old(backend).stopping || !g.contains_key(t) || g[t].residency == Residency::Disk
                ==> h == g
        }),
{
    let g = old(backend).storage@;
    if g.contains_key(t) {
        if g.contains_key(x) {
            law_pins_count_one_by_one(g, t, x);
        }
        law_pins_count_one_by_one(g, t, t);
    }
}

/// Two calls: a pin and its unpin leave all tasks as they were.
pub proof fn law_unpin_after_pin(
    first: &mut TurboTasksBackend,
    second: &mut TurboTasksBackend,
    t: TaskId,
)
    requires
        call_ensures(TurboTasksBackend::gc_pin, (first, t), ()),
        call_ensures(TurboTasksBackend::gc_unpin, (second, t), ()),
        *old(second) == *final(first),
    ensures
        final(second).storage@ == old(first).storage@,
        final(second).gc_dead_list@ == old(first).gc_dead_list@,
{
    let g = old(first).storage@;
    if g.contains_key(t) {
        law_pins_count_one_by_one(g, t, t);
    }
}

/// A call of `gc_mark_deleted` marks its task, for the next snapshot too, and touches no other.
pub proof fn law_mark_marks_its_task(backend: &mut TurboTasksBackend, t: TaskId, x: TaskId)
    requires
        call_ensures(TurboTasksBackend::gc_mark_deleted, (backend, t), ()),
        old(backend).storage@.contains_key(t),
        old(backend).storage@.contains_key(x),
    ensures
        final(backend).storage@[t].deleted,
        final(backend).storage@[t].modified,
        x != t ==> final(backend).storage@[x] == old(backend).storage@[x],
        final(backend).storage@.dom() == old(backend).storage@.dom(),
{
    law_mark_stays_for_the_snapshot(old(backend).storage@, t, x);
}

/// A task has no reason against its collection exactly when it is persistent, in memory, without parents,
/// references and uppers, and neither active nor in progress nor deleted. A transient task has the reason
/// that its id is transient, and one without an entry in memory that it is not resident.
pub proof fn law_reason_is_given_unless_collectible(
    backend: &TurboTasksBackend,
    t: TaskId,
    reason: Option<String>,
)
    requires
        backend.wf(),
        call_ensures(
            TurboTasksBackend::gc_uncollectible_reason_for_testing,
            (backend, t),
            reason,
        ),
    ensures
        reason is None <==> backend.storage@.contains_key(t) && t < 0x8000_0000
            && backend.storage@[t].residency == Residency::Restored && backend.storage@[t].parent_count
            == 0 && backend.storage@[t].transient_ref_count == 0 && !backend.storage@[t].active
            && !backend.storage@[t].in_progress && !backend.storage@[t].deleted
            && backend.storage@[t].uppers.is_empty(),
        t >= 0x8000_0000 ==> (reason matches Some(text) && text@ == "transient id"@),
        t < 0x8000_0000 && (!backend.storage@.contains_key(t) || backend.storage@[t].residency
            == Residency::Disk) ==> (reason matches Some(text) && text@ == "not resident"@),
{
    if backend.storage@.contains_key(t) {
        law_reasons_name_the_failing_tests(backend.storage@[t]);
    }
}

/// The blocked tasks are those with an entry in memory that are garbage, but that something holds back;
/// each is listed once, with a reason.
pub proof fn law_blocked_tasks_are_listed(
    backend: &TurboTasksBackend,
    blocked: Vec<(TaskId, String)>,
    t: TaskId,
)
    requires
        backend.wf(),
        call_ensures(TurboTasksBackend::gc_blocked_tasks_for_testing, (backend,), blocked),
        backend.storage@.contains_key(t),
    ensures
        (exists|i: int| 0 <= i < blocked@.len() && (#[trigger] blocked@[i]).0 == t) <==> {
            let m = backend.storage@[t];
            t < 0x8000_0000 && m.residency != Residency::Disk && m.parent_count == 0 && !m.deleted && (
            m.residency == Residency::Retained || m.transient_ref_count > 0 || m.active
                || m.in_progress || (exists|u: TaskId| m.uppers.contains(u)))
        },
        forall|i: int, j: int|
            0 <= i < j < blocked@.len() ==> (#[trigger] blocked@[i]).0 != (#[trigger] blocked@[j]).0,
{
    law_blocked_tasks_are_held_back_garbage(backend.storage@, t);
}

/// What `is_gc_collectible` says depends on the id, the two counts, the three marks and the uppers, and on
/// nothing else.
pub proof fn law_is_collectible_reads_what_decides(
    a: &TaskStorage,
    b: &TaskStorage,
    t: TaskId,
    for_a: bool,
    for_b: bool,
)
    requires
        call_ensures(TaskStorage::is_gc_collectible, (a, t), for_a),
        call_ensures(TaskStorage::is_gc_collectible, (b, t), for_b),
    ensures
        for_a <==> t < 0x8000_0000 && a.parent_count == 0 && a.transient_ref_count == 0 && !a.active
            && !a.in_progress && !a.deleted && (forall|u: TaskId| !a.uppers@.contains(u)),
        a.parent_count == b.parent_count && a.transient_ref_count == b.transient_ref_count && a.active
            == b.active && a.in_progress == b.in_progress && a.deleted == b.deleted && a.uppers@
            == b.uppers@ ==> for_a == for_b,
{
}

/// The cheap test of a task and the full one agree on tasks in memory, and the cheap one turns down all
/// others. What passes the full test is still parentless; what is not, is deleted, transient or has a
/// persistent parent.
pub proof fn law_tests_of_a_task(
    task: &TaskStorage,
    t: TaskId,
    cheap: bool,
    full: bool,
    parentless: bool,
)
    requires
        call_ensures(TaskStorage::gc_maybe_collectible, (task, t), cheap),
        call_ensures(TaskStorage::is_gc_collectible, (task, t), full),
        call_ensures(TaskStorage::gc_is_still_parentless, (task, t), parentless),
    ensures
        cheap <==> full && task.residency == Residency::Restored,
        full ==> parentless,
        parentless && !full ==> task.transient_ref_count > 0 || task.active || task.in_progress
            || exists|u: TaskId| task.uppers@.contains(u),
        !parentless <==> t >= 0x8000_0000 || task.parent_count > 0 || task.deleted,
{
    if parentless && !full {
        if !(exists|u: TaskId| task.uppers@.contains(u)) {
            assert(task.uppers@ =~= Set::empty());
        }
    }
}

/// The edges of a task: each child and each dependency, once.
pub proof fn law_old_edges_are_all_edges(task: &TaskStorage, edges: Vec<OutdatedEdge>, c: TaskId)
    requires
        call_ensures(TaskStorage::old_edges, (task,), edges),
    ensures
        edges@.contains(OutdatedEdge::Child(c)) <==> task.children@.contains(c),
        edges@.contains(OutdatedEdge::OutputDependency(c)) <==> task.output_dependencies@.contains(c),
        forall|x: CellRef| #[trigger]
            task.cell_dependencies@.contains(x) <==> edges@.contains(OutdatedEdge::CellDependency(x)),
        forall|x: HashedCellRef| #[trigger]
            task.cell_dependencies_hashed@.contains(x) <==> edges@.contains(
                OutdatedEdge::HashedCellDependency(x),
            ),
        forall|x: CollectiblesRef| #[trigger]
            task.collectibles_dependencies@.contains(x) <==> edges@.contains(
                OutdatedEdge::CollectiblesDependency(x),
            ),
        edges@.no_duplicates(),
{
    law_task_is_read_as_it_is(*task);
    assert forall|e: OutdatedEdge| #[trigger] edges@.contains(e) == task@.has_edge(e) by {}
}

/// A dependency that was noted is there, and one that was taken back is not; no other changes.
pub proof fn law_dependencies_come_and_go(
    first: &mut TaskStorage,
    second: &mut TaskStorage,
    e: OutdatedEdge,
    other: OutdatedEdge,
)
    requires
        call_ensures(TaskStorage::add_dependency, (first, e), ()),
        call_ensures(TaskStorage::remove_dependency, (second, e), ()),
    ensures
        final(first)@.dependencies.contains(e),
        !final(second)@.dependencies.contains(e),
        other != e ==> final(first)@.dependencies.contains(other) == old(
            first,
        )@.dependencies.contains(other),
        other != e ==> final(second)@.dependencies.contains(other) == old(
            second,
        )@.dependencies.contains(other),
        final(first)@.children == old(first)@.children,
        final(second)@.children == old(second)@.children,
        final(first)@.parent_count == old(first)@.parent_count,
        final(second)@.parent_count == old(second)@.parent_count,
{
}

/// What is asked of the storage is what it holds.
pub proof fn law_storage_gives_what_it_holds(
    storage: &Storage,
    t: TaskId,
    found: Option<&TaskStorage>,
    all: Vec<TaskId>,
)
    requires
        call_ensures(Storage::get, (storage, t), found),
        call_ensures(Storage::task_ids, (storage,), all),
    ensures
        found is Some <==> storage@.contains_key(t),
        found is Some <==> all@.contains(t),
        found matches Some(task) ==> task.parent_count == storage@[t].parent_count
            && task.transient_ref_count == storage@[t].transient_ref_count && task.deleted
            == storage@[t].deleted && task.children@ == storage@[t].children && task.uppers@
            == storage@[t].uppers,
        all@.no_duplicates(),
{
    assert(all@.contains(t) == all@.to_set().contains(t));
    if let Some(task) = found {
        law_task_is_read_as_it_is(*task);
    }
}

/// The scan is seeded with the tasks in memory that are garbage and that nothing holds back, each once.
pub proof fn law_candidates_are_resident_garbage(storage: &Storage, found: Vec<TaskId>, t: TaskId)
    requires
        call_ensures(Storage::gc_collectible_candidates, (storage,), found),
    ensures
        found@.contains(t) <==> storage@.contains_key(t) && storage@[t].residency
            == Residency::Restored && t < 0x8000_0000 && storage@[t].parent_count == 0
            && storage@[t].transient_ref_count == 0 && !storage@[t].active && !storage@[t].in_progress
            && !storage@[t].deleted && (forall|u: TaskId| !storage@[t].uppers.contains(u)),
        found@.no_duplicates(),
{
    assert(found@.contains(t) == found@.to_set().contains(t));
    if found@.contains(t) {
        assert forall|u: TaskId| !storage@[t].uppers.contains(u) by {
            if storage@[t].uppers.contains(u) {
                assert(!storage@[t].uppers.is_empty());
            }
        }
    }
    if storage@.contains_key(t) && (forall|u: TaskId| !storage@[t].uppers.contains(u)) {
        assert(storage@[t].uppers =~= Set::empty());
    }
}

/// A new task is there and bare, and an id that is taken stays what it is.
pub proof fn law_insert_adds_a_bare_task(storage: &mut Storage, t: TaskId, x: TaskId, fresh: bool)
    requires
        call_ensures(Storage::insert_task, (storage, t), fresh),
    ensures
        fresh == !old(storage)@.contains_key(t),
        final(storage)@.contains_key(t),
        old(storage)@.contains_key(x) ==> final(storage)@[x] == old(storage)@[x],
        x != t ==> final(storage)@.contains_key(x) == old(storage)@.contains_key(x),
        fresh ==> final(storage)@[t].children.is_empty() && final(storage)@[t].parent_count == 0
            && final(storage)@[t].transient_ref_count == 0 && final(storage)@[t].uppers.is_empty()
            && !final(storage)@[t].deleted && final(storage)@[t].residency == Residency::Restored,
{
    if fresh {
        law_new_task(old(storage)@, t, x);
    }
}

/// A call of `link_child` makes the edge, counts it once, and brings a collected child to life, dirty.
pub proof fn law_link_makes_the_edge(
    storage: &mut Storage,
    p: TaskId,
    c: TaskId,
    fresh: bool,
    x: TaskId,
    y: TaskId,
)
    requires
        call_ensures(Storage::link_child, (storage, p, c), fresh),
        old(storage)@.contains_key(p),
        old(storage)@.contains_key(c),
        old(storage)@.contains_key(x),
    ensures
        ({
            let g = old(storage)@;
            let h = final(storage)@;
            &&& fresh == !g[p].children.contains(c)
            &&& h[x].children.contains(y) <==> g[x].children.contains(y) || (x == p && y == c)
            &&& fresh && p < 0x8000_0000 ==> h[c].parent_count == g[c].parent_count + 1
                && h[c].transient_ref_count == g[c].transient_ref_count
            &&& fresh && p >= 0x8000_0000 ==> h[c].transient_ref_count == g[c].transient_ref_count + 1
                && h[c].parent_count == g[c].parent_count
            &&& fresh && g[c].deleted ==> h[c].dirty
            &&& fresh ==> !h[c].deleted && h[c].modified
            &&& !fresh ==> h == g
            &&& h[x].uppers == g[x].uppers
            &&& h[x].dependencies == g[x].dependencies
        }),
{
    law_new_child_edge(old(storage)@, p, c, x, y);
    law_new_child_edge(old(storage)@, p, c, c, y);
}

/// A call of `unlink_child` takes the edge out, and says whether the child has no persistent parent left
/// and, if the parent was transient, no reference from outside either.
pub proof fn law_unlink_says_what_is_left(
    storage: &mut Storage,
    p: TaskId,
    c: TaskId,
    last: bool,
    x: TaskId,
    y: TaskId,
)
    requires
        graph_wf(old(storage)@),
        call_ensures(Storage::unlink_child, (storage, p, c), last),
        old(storage)@.contains_key(p),
        old(storage)@[p].children.contains(c),
        old(storage)@.contains_key(x),
    ensures
        ({
            let g = old(storage)@;
            let h = final(storage)@;
            &&& h[x].children.contains(y) <==> g[x].children.contains(y) && !(x == p && y == c)
            &&& h[c].modified
            &&& h[p].modified
            &&& p < 0x8000_0000 ==> (last <==> h[c].parent_count == 0)
            &&& p >= 0x8000_0000 ==> (last <==> h[c].parent_count == 0 && h[c].transient_ref_count == 0)
            &&& p < 0x8000_0000 ==> h[c].parent_count + 1 == g[c].parent_count
            &&& p >= 0x8000_0000 ==> h[c].transient_ref_count + 1 == g[c].transient_ref_count
        }),
{
    let g = old(storage)@;
    assert(g.contains_key(c));
    law_child_edge_taken_out(g, p, c, x, y);
    law_child_edge_taken_out(g, p, c, c, y);
    law_child_edge_taken_out(g, p, c, p, y);
}

/// A call of `link_upper` makes an aggregation edge at both ends, and `unlink_upper` takes it out at both.
pub proof fn law_uppers_are_linked_at_both_ends(
    first: &mut Storage,
    second: &mut Storage,
    u: TaskId,
    t: TaskId,
    x: TaskId,
    y: TaskId,
)
    requires
        call_ensures(Storage::link_upper, (first, u, t), ()),
        call_ensures(Storage::unlink_upper, (second, u, t), ()),
        old(first)@.contains_key(u),
        old(first)@.contains_key(t),
        old(first)@.contains_key(x),
        *old(second) == *final(first),
    ensures
        final(first)@[t].uppers.contains(u),
        final(first)@[u].followers.contains(t),
        final(first)@[x].children == old(first)@[x].children,
        !final(second)@[t].uppers.contains(u),
        !final(second)@[u].followers.contains(t),
        !(x == t && y == u) ==> final(second)@[x].uppers.contains(y) == old(first)@[x].uppers.contains(
            y,
        ),
        final(second)@[x].children == old(first)@[x].children,
        final(second)@[x].parent_count == old(first)@[x].parent_count,
{
    let g = old(first)@;
    let h = final(first)@;
    law_new_aggregation_edge(g, u, t, x, y);
    law_new_aggregation_edge(g, u, t, t, u);
    law_new_aggregation_edge(g, u, t, u, t);
    law_aggregation_edges_taken_out(h, u, set![t], x, y);
    law_aggregation_edges_taken_out(h, u, set![t], t, u);
    law_aggregation_edges_taken_out(h, u, set![t], u, t);
}

/// A call of `add_dependency` notes the dependency at both ends.
pub proof fn law_dependency_is_noted_at_both_ends(
    storage: &mut Storage,
    t: TaskId,
    e: OutdatedEdge,
    x: TaskId,
    other: OutdatedEdge,
)
    requires
        call_ensures(Storage::add_dependency, (storage, t, e), ()),
        old(storage)@.contains_key(t),
        old(storage)@.contains_key(e.target()),
        old(storage)@.contains_key(x),
    ensures
        final(storage)@[t].dependencies.contains(e),
        final(storage)@[e.target()].dependents.contains((Dependent { task: t, edge: e })),
        !(x == t && other == e) ==> final(storage)@[x].dependencies.contains(other) == old(
            storage,
        )@[x].dependencies.contains(other),
        final(storage)@[x].children == old(storage)@[x].children,
        final(storage)@[x].parent_count == old(storage)@[x].parent_count,
{
    let dep = Dependent { task: t, edge: e };
    law_new_dependency(old(storage)@, t, e, x, other, dep);
    law_new_dependency(old(storage)@, t, e, t, e, dep);
    law_new_dependency(old(storage)@, t, e, e.target(), e, dep);
}

/// What is set of a task is what is there afterwards, and nothing else of any task changes.
pub proof fn law_setters_set_what_they_say(
    first: &mut Storage,
    second: &mut Storage,
    t: TaskId,
    active: bool,
    in_progress: bool,
    residency: Residency,
    x: TaskId,
)
    requires
        call_ensures(Storage::set_activity, (first, t, active, in_progress), ()),
        call_ensures(Storage::set_residency, (second, t, residency), ()),
        *old(second) == *final(first),
        old(first)@.contains_key(t),
        old(first)@.contains_key(x),
    ensures
        ({
            let g = old(first)@;
            let h = final(second)@;
            &&& h.dom() == g.dom()
            &&& h[t].active == active
            &&& h[t].in_progress == in_progress
            &&& h[t].residency == residency
            &&& x != t ==> h[x] == g[x]
            &&& h[x].children == g[x].children
            &&& h[x].followers == g[x].followers
            &&& h[x].uppers == g[x].uppers
            &&& h[x].dependencies == g[x].dependencies
            &&& h[x].dependents == g[x].dependents
            &&& h[x].parent_count == g[x].parent_count
            &&& h[x].transient_ref_count == g[x].transient_ref_count
            &&& h[x].deleted == g[x].deleted
            &&& h[x].dirty == g[x].dirty
            &&& h[x].modified == g[x].modified
        }),
{
    assert(final(second)@.dom() =~= old(first)@.dom());
}

/// Counting a reference and taking it back: both say whether the task has an entry in memory, and together
/// they change nothing.
pub proof fn law_counts_go_up_and_down(
    first: &mut Storage,
    second: &mut Storage,
    t: TaskId,
    up: bool,
    down: bool,
)
    requires
        call_ensures(Storage::gc_increment_transient_ref_count, (first, t), up),
        call_ensures(Storage::gc_decrement_transient_ref_count, (second, t), down),
        *old(second) == *final(first),
    ensures
        up == down,
        up <==> old(first)@.contains_key(t) && old(first)@[t].residency != Residency::Disk,
        up ==> final(first)@[t].transient_ref_count == old(first)@[t].transient_ref_count + 1,
        !up ==> final(first)@ == old(first)@,
        final(second)@ == old(first)@,
{
    let g = old(first)@;
    if g.contains_key(t) {
        law_pins_count_one_by_one(g, t, t);
    }
}

/// A task in memory is pinned exactly when it is referred to from outside more often than it has transient
/// parents.
pub proof fn law_pins_are_what_no_parent_counts(storage: &Storage, t: TaskId, pinned: bool)
    requires
        call_ensures(Storage::is_pinned, (storage, t), pinned),
    ensures
        pinned <==> storage@.contains_key(t) && storage@[t].residency != Residency::Disk
            && storage@[t].transient_ref_count > Set::new(
            |p: TaskId|
                p >= 0x8000_0000 && storage@.contains_key(p) && storage@[p].children.contains(t),
        ).len(),
{
    assert(transient_parents(storage@, t) =~= Set::new(
        |p: TaskId|
            p >= 0x8000_0000 && storage@.contains_key(p) && storage@[p].children.contains(t),
    ));
}

/// A call of `cleanup_old_edges` takes the given edges of a task out at both ends, lets go of its
/// followers, and hands out the given children that have no persistent parent left, each once.
pub proof fn law_cleanup_gives_edges_up(
    storage: &mut Storage,
    t: TaskId,
    edges: &Vec<OutdatedEdge>,
    parentless: Vec<TaskId>,
    x: TaskId,
    y: TaskId,
    e: OutdatedEdge,
    dep: Dependent,
)
    requires
        graph_wf(old(storage)@),
        old(storage)@.contains_key(t),
        t < 0x8000_0000,
        old(storage)@.contains_key(x),
        edges@.no_duplicates(),
        forall|e: OutdatedEdge| #[trigger] edges@.contains(e) ==> old(storage)@[t].has_edge(e),
        call_ensures(Storage::cleanup_old_edges, (storage, t, edges), parentless),
    ensures
        ({
            let g = old(storage)@;
            let h = final(storage)@;
            &&& h[x].children.contains(y) <==> g[x].children.contains(y) && !(x == t
                && edges@.contains(OutdatedEdge::Child(y)))
            &&& h[x].dependencies.contains(e) <==> g[x].dependencies.contains(e) && !(x == t
                && edges@.contains(e))
            &&& h[x].dependents.contains(dep) <==> g[x].dependents.contains(dep) && !(dep.task == t
                && edges@.contains(dep.edge))
            &&& h[x].parent_count + (if edges@.contains(OutdatedEdge::Child(x)) {
                1int
            } else {
                0
            }) == g[x].parent_count
            &&& !h[t].followers.contains(y)
            &&& h[x].uppers.contains(y) <==> g[x].uppers.contains(y) && !(y == t
                && g[t].followers.contains(x))
            &&& h[x].deleted == g[x].deleted
            &&& parentless@.contains(x) <==> edges@.contains(OutdatedEdge::Child(x))
                && h[x].parent_count == 0
            &&& parentless@.no_duplicates()
        }),
{
    let g = old(storage)@;
    let given = edges@.to_set();
    let h = cleaned(g, t, given);
    assert forall|e: OutdatedEdge| #[trigger] given.contains(e) implies g[t].has_edge(e) by {
        assert(edges@.contains(e));
    }
    assert(given.contains(OutdatedEdge::Child(y)) == edges@.contains(OutdatedEdge::Child(y)));
    assert(given.contains(OutdatedEdge::Child(x)) == edges@.contains(OutdatedEdge::Child(x)));
    assert(given.contains(e) == edges@.contains(e));
    assert(given.contains(dep.edge) == edges@.contains(dep.edge));
    law_edges_given_up(g, t, given, x, y, e, dep);
    law_edges_given_up(g, t, given, t, y, e, dep);
    law_aggregation_edges_taken_out(h, t, g[t].followers, x, y);
    law_aggregation_edges_taken_out(h, t, g[t].followers, t, y);
}

/// What is revealed is revealed to whoever asks, for every path; nothing else is, and revealing twice
/// changes nothing.
pub proof fn law_reveal_then_ask(
    session: &mut Session,
    later: &Session,
    registry: &LazyRevealRegistry,
    path: String,
    asked: &String,
    changed: bool,
    revealed: bool,
)
    requires
        call_ensures(reveal_path, (session, path), changed),
        *later == *final(session),
        call_ensures(Session::registry, (later,), registry),
        call_ensures(LazyRevealRegistry::is_revealed, (registry, asked), revealed),
    ensures
        asked@ == path@ ==> revealed,
        revealed <==> asked@ == path@ || old(session)@.contains(asked@),
        changed <==> !old(session)@.contains(path@),
{
}

/// The registry of a session is shared: what is revealed through the handle is revealed in the session,
/// with what was revealed before, and nothing else is.
pub proof fn law_handle_is_shared(
    session: &mut Session,
    registry: &mut LazyRevealRegistry,
    path: String,
    changed: bool,
    asked: Seq<char>,
)
    requires
        call_ensures(LazyRevealRegistry::get, (session,), registry),
        call_ensures(LazyRevealRegistry::reveal_path, (registry, path), changed),
    ensures
        final(session)@.contains(path@),
        asked != path@ ==> final(session)@.contains(asked) == old(session)@.contains(asked),
        changed <==> !old(session)@.contains(path@),
{
}

/// Nothing is revealed in a session that starts.
pub proof fn law_new_session_reveals_nothing(
    session: Session,
    registry: &LazyRevealRegistry,
    asked: &String,
    revealed: bool,
)
    requires
        call_ensures(Session::start, (), session),
        call_ensures(Session::registry, (&session,), registry),
        call_ensures(LazyRevealRegistry::is_revealed, (registry, asked), revealed),
    ensures
        !revealed,
{
}

/// A module whose marker is there is not deferred, whatever its path and the session are; one whose path
/// is revealed is not either; and any other is.
pub proof fn law_marker_or_reveal_ends_deferral(
    session: &Session,
    path: &FileSystemPath,
    marker: &FileContent,
    deferred: bool,
)
    requires
        call_ensures(is_module_deferred, (session, path, marker), deferred),
    ensures
        marker is Content ==> !deferred,
        session@.contains(path.path@) ==> !deferred,
        marker is NotFound && !session@.contains(path.path@) ==> deferred,
{
}

/// The marker of a path is looked for at the path with `.reveal` behind it.
pub proof fn law_marker_has_the_path_of_its_source(path: &FileSystemPath, marker: String)
    requires
        call_ensures(reveal_marker, (path,), marker),
        path.path@.len() > 0 ==> path.path@[0] != '/',
    ensures
        marker@ == path.path@ + ".reveal"@,
{
    law_marker_is_next_to_its_source(path.path@);
}

/// A path is lazy if its name is something, then `.lazy.`, then something, in any directory.
pub proof fn law_lazy_is_told_by_the_name(
    path: &str,
    lazy: bool,
    d: Seq<char>,
    a: Seq<char>,
    b: Seq<char>,
)
    requires
        call_ensures(is_lazy_path, (path,), lazy),
        forall|i: int| 0 <= i < a.len() ==> a[i] != '/',
        forall|i: int| 0 <= i < b.len() ==> b[i] != '/',
        path@ == a + ".lazy."@ + b || path@ == d + seq!['/'] + (a + ".lazy."@ + b),
    ensures
        lazy,
{
    law_lazy_in_the_name(d, a, b);
}

/// And it is not if no part of its name is `.lazy.`, whatever its directories are called.
pub proof fn law_not_lazy_is_told_by_the_name(path: &str, lazy: bool, d: Seq<char>, n: Seq<char>)
    requires
        call_ensures(is_lazy_path, (path,), lazy),
        forall|i: int| 0 <= i < n.len() ==> n[i] != '/',
        forall|a: Seq<char>, b: Seq<char>| n != #[trigger] (a + ".lazy."@ + b),
        path@ == n || path@ == d + seq!['/'] + n,
    ensures
        !lazy,
{
    law_lazy_paths_by_name(d, n);
}

/// Reading a source, step by step: first its type is asked for. A link is followed up, and handed on as it
/// is. A file whose name is something, then `.lazy.`, then something, is empty as long as its path is not
/// revealed. What was read is handed on as it is.
pub proof fn law_content_step_by_step(
    source: &FileSource,
    reply: Option<ContentReply>,
    session: &Session,
    step: ContentStep,
    d: Seq<char>,
    a: Seq<char>,
    b: Seq<char>,
)
    requires
        call_ensures(FileSource::content, (source, reply, session), step),
        forall|i: int| 0 <= i < a.len() ==> a[i] != '/',
        forall|i: int| 0 <= i < b.len() ==> b[i] != '/',
    ensures
        reply is None ==> step == ContentStep::Ask(ContentRequest::GetType),
        reply == Some(ContentReply::Type(FileSystemEntryType::Symlink)) ==> step == ContentStep::Ask(
            ContentRequest::ReadLink,
        ),
        reply matches Some(ContentReply::Link(LinkContent::Link { target, link_type })) ==> step
            == ContentStep::Done(Ok(AssetContent::Redirect { target, link_type })),
        reply == Some(ContentReply::Link(LinkContent::Invalid)) || reply == Some(
            ContentReply::Link(LinkContent::NotFound),
        ) ==> step == ContentStep::Done(Err(SourceError::InvalidSymlink)),
        reply matches Some(ContentReply::File(content)) ==> step == ContentStep::Done(
            Ok(AssetContent::File(content)),
        ),
        reply == Some(ContentReply::Type(FileSystemEntryType::NotFound)) ==> step == ContentStep::Done(
            Ok(AssetContent::File(FileContent::NotFound)),
        ),
        reply == Some(ContentReply::Type(FileSystemEntryType::File)) && session@.contains(
            source.path.path@,
        ) ==> step == ContentStep::Ask(ContentRequest::Read),
        reply == Some(ContentReply::Type(FileSystemEntryType::File)) && !session@.contains(
            source.path.path@,
        ) && (source.path.path@ == a + ".lazy."@ + b || source.path.path@ == d + seq!['/'] + (a
            + ".lazy."@ + b)) ==> (step matches ContentStep::Done(
            Ok(AssetContent::File(FileContent::Content(bytes))),
        ) && bytes@ == Seq::<u8>::empty()),
{
    law_lazy_in_the_name(d, a, b);
}

/// A directory, and whatever else is neither a file nor a link, is an error that names the type.
pub proof fn law_other_types_are_errors(
    source: &FileSource,
    kind: FileSystemEntryType,
    session: &Session,
    step: ContentStep,
)
    requires
        call_ensures(
            FileSource::content,
            (source, Some(ContentReply::Type(kind)), session),
            step,
        ),
        kind == FileSystemEntryType::Directory || kind == FileSystemEntryType::Other || kind
            == FileSystemEntryType::Error,
    ensures
        step == ContentStep::Done(Err(SourceError::InvalidFileType(kind))),
{
}

/// What a source is made of is what identifies it, and what it is described by.
pub proof fn law_source_is_what_it_was_made_of(
    path: FileSystemPath,
    query: String,
    fragment: String,
    source: FileSource,
    ident: AssetIdent,
    text: String,
)
    requires
        call_ensures(
            FileSource::new_with_query_and_fragment,
            (path, query, fragment),
            source,
        ),
        call_ensures(FileSource::ident, (&source,), ident),
        call_ensures(FileSource::description, (&source,), text),
    ensures
        ident.path == path,
        ident.query == query,
        ident.fragment == fragment,
        text@ == "file content of "@ + path.shown@,
{
}

/// What is not given to a source is empty.
pub proof fn law_sources_default_to_no_query_and_fragment(
    path: FileSystemPath,
    query: String,
    bare: FileSource,
    with_query: FileSource,
)
    requires
        call_ensures(FileSource::new, (path,), bare),
        call_ensures(FileSource::new_with_query, (path, query), with_query),
    ensures
        bare.path == path,
        bare.query@.len() == 0,
        bare.fragment@.len() == 0,
        with_query.path == path,
        with_query.query == query,
        with_query.fragment@.len() == 0,
{
}

/// What an error says.
pub proof fn law_error_messages(error: &SourceError, message: String)
    requires
        call_ensures(SourceError::message, (error,), message),
    ensures
        *error == SourceError::InvalidSymlink ==> message@ == "Invalid symlink"@,
        *error matches SourceError::InvalidFileType(kind) ==> message@ == "Invalid file type "@
            + match kind {
            FileSystemEntryType::NotFound => "NotFound"@,
            FileSystemEntryType::File => "File"@,
            FileSystemEntryType::Directory => "Directory"@,
            FileSystemEntryType::Symlink => "Symlink"@,
            FileSystemEntryType::Other => "Other"@,
            FileSystemEntryType::Error => "Error"@,
        },
{
    if let SourceError::InvalidFileType(kind) = *error {
        law_errors_say_what_they_are(kind);
    }
}

/// The mode that the environment gives: none unless garbage collection is switched on by `1`, `true` or
/// `yes`; then a scan if the mode is `scan`, and else the incremental one. The environment is valid
/// unless garbage collection is on and its mode is something else.
pub proof fn law_mode_from_the_environment(
    gc: &EnvVar,
    mode: &EnvVar,
    selected: Option<GcMode>,
    valid: bool,
)
    requires
        call_ensures(gc_mode_from_env, (gc, mode), selected),
        call_ensures(gc_env_is_valid, (gc, mode), valid),
    ensures
        ({
            let on = *gc matches EnvVar::Text(v) && (v@ == "1"@ || v@ == "true"@ || v@ == "yes"@);
            let incremental = *mode matches EnvVar::Text(v) && v@ == "incremental"@;
            let scan = *mode matches EnvVar::Text(v) && v@ == "scan"@;
            &&& valid <==> !on || *mode is Unset || incremental || scan
            &&& !on ==> selected is None
            &&& on && (*mode is Unset || incremental) ==> selected == Some(GcMode::Incremental)
            &&& on && scan ==> selected == Some(GcMode::Scan)
        }),
{
}

/// The statistics hold what was counted and measured.
pub proof fn law_statistics_hold_what_was_counted(
    mode: GcMode,
    seeds: usize,
    counters: &GcCounters,
    seeding: Duration,
    all: Duration,
    stats: GcPassStats,
    none: GcPassStats,
)
    requires
        call_ensures(GcPassStats::of_pass, (mode, seeds, counters, seeding, all), stats),
        call_ensures(GcPassStats::empty, (mode, seeding, all), none),
    ensures
        stats.mode == mode,
        stats.seed_candidates == seeds,
        stats.collected == counters.collected,
        stats.requeued == counters.requeued,
        stats.dropped_stale == counters.dropped_stale,
        stats.seed_duration == seeding,
        stats.total_duration == all,
        none.mode == mode,
        none.seed_candidates == 0,
        none.collected == 0,
        none.requeued == 0,
        none.dropped_stale == 0,
        none.seed_duration == seeding,
        none.total_duration == all,
{
}

/// A part is in a name wherever it stands in it.
pub proof fn law_part_of_a_name(path: &str, part: &str, found: bool, d: Seq<char>, n: Seq<char>)
    requires
        call_ensures(name_has_part, (path, part), found),
        forall|i: int| 0 <= i < n.len() ==> n[i] != '/',
        path@ == n || path@ == d + seq!['/'] + n,
    ensures
        found <==> exists|a: Seq<char>, b: Seq<char>| n == #[trigger] (a + part@ + b),
{
    law_path_is_directory_and_name(d, n);
    law_part_stands_between(n, part@);
}

/// A sibling stands in the same directory.
pub proof fn law_sibling_is_in_the_same_directory(
    path: &str,
    suffix: &str,
    made: String,
    d: Seq<char>,
    n: Seq<char>,
)
    requires
        call_ensures(sibling, (path, suffix), made),
        forall|i: int| 0 <= i < n.len() ==> n[i] != '/',
        forall|i: int| 0 <= i < suffix@.len() ==> suffix@[i] != '/',
        path@ == n || (d.len() > 0 && path@ == d + seq!['/'] + n),
    ensures
        path@ == n ==> made@ == n + suffix@,
        path@ == d + seq!['/'] + n ==> made@ == d + seq!['/'] + (n + suffix@),
{
    law_path_is_directory_and_name(d, n);
    law_path_is_directory_and_name(d, n + suffix@);
}

/// Each type of entry has its name, and the copy of a path is that path.
pub proof fn law_names_and_copies(
    kind: &FileSystemEntryType,
    name: &'static str,
    path: &FileSystemPath,
    copy: FileSystemPath,
)
    requires
        call_ensures(FileSystemEntryType::name, (kind,), name),
        call_ensures(FileSystemPath::duplicate, (path,), copy),
    ensures
        name@ == match *kind {
            FileSystemEntryType::NotFound => "NotFound"@,
            FileSystemEntryType::File => "File"@,
            FileSystemEntryType::Directory => "Directory"@,
            FileSystemEntryType::Symlink => "Symlink"@,
            FileSystemEntryType::Other => "Other"@,
            FileSystemEntryType::Error => "Error"@,
        },
        copy.path == path.path,
        copy.shown == path.shown,
{
    law_errors_say_what_they_are(*kind);
}

} // verus!
