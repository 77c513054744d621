//! What the operations do, told in the fields of the tasks.
//!
//! The laws here speak of the graph before an operation and after it, task by task and field by field.
//! A persistent task is one whose id is below `0x8000_0000`.
use vstd::prelude::*;
use vstd::multiset::*;
use vstd::set_lib::*;
use crate::edit::{
    aggregated, depending, last_reference_dropped, linked, pinned, recorded, resident, unlinked,
    unpinned, with_task,
};
use crate::gc::{
    countable, job_tasks, lemma_some_order, mode_or_scan, parentless_but_blocked, passed, under_way,
    GcJob, TurboTasksBackend,
};
use crate::graph::{
    graph_wf, lemma_parentless, lemma_parents_finite, parents, torn_down, touched, touches,
    transient_parents, Graph,
};
use crate::laws::{
    law_collectible_seed_is_collected, law_collects_the_condemned, law_every_candidate_has_one_outcome,
    law_no_edge_is_left, law_only_garbage_is_collected, law_pass_effect, law_scan_is_never_stale,
};
use crate::mode::GcMode;
use crate::outcome::{
    ancestor, awaiting, below_ancestors, descent, lemma_condemned, lemma_entries_counted_run,
    lemma_remembered_run, lemma_tallied_run, lemma_thorough_run, orphaned,
};
use crate::pass::{
    held_back, job_step, lemma_from_set, lemma_pass_graph, lemma_run, lemma_start, newly_deleted,
    run, scan_seeds, seeds, spawned, start, zeroed, PassState,
};
use crate::stats::{GcCounters, GcPassStats};
use crate::task::{still_parentless, Dependent, OutdatedEdge, Residency, TaskId};
use crate::teardown::{cleaned, marked_deleted, reached, unhooked};

verus! {

/// Who is whose parent: the persistent tasks, and the transient tasks, that list a task as a child. The
/// counts of a task stand for them.
pub proof fn law_parents_are_those_who_list_the_task(g: Graph, x: TaskId, p: TaskId)
    requires
        graph_wf(g),
        g.contains_key(x),
    ensures
        parents(g, x).contains(p) <==> g.contains_key(p) && p < 0x8000_0000 && g[p].children.contains(
            x,
        ),
        transient_parents(g, x).contains(p) <==> g.contains_key(p) && p >= 0x8000_0000
            && g[p].children.contains(x),
        g[x].parent_count == parents(g, x).len(),
        g[x].transient_ref_count >= transient_parents(g, x).len(),
        g.contains_key(p) && g[p].children.contains(x) && p < 0x8000_0000 ==> g[x].parent_count > 0,
        g.contains_key(p) && g[p].children.contains(x) && p >= 0x8000_0000
            ==> g[x].transient_ref_count > 0,
{
    lemma_parentless(g, x);
    lemma_parents_finite(g, x);
    if g.contains_key(p) && g[p].children.contains(x) {
        if p < 0x8000_0000 {
            assert(parents(g, x).contains(p));
        } else {
            assert(transient_parents(g, x).contains(p));
        }
    }
}

/// A new child edge is there afterwards, and no other edge comes or goes. It is counted at the child, by
/// whether the parent is persistent. A collected child comes to life, and is dirty.
pub proof fn law_new_child_edge(g: Graph, p: TaskId, c: TaskId, x: TaskId, y: TaskId)
    requires
        g.contains_key(p),
        g.contains_key(c),
        g.contains_key(x),
    ensures
        ({
            let h = linked(g, p, c);
            &&& h.dom() == g.dom()
            &&& h[x].children.contains(y) <==> g[x].children.contains(y) || (x == p && y == c)
            &&& h[x].parent_count == g[x].parent_count + if x == c && p < 0x8000_0000 {
                1int
            } else {
                0
            }
            &&& h[x].transient_ref_count == g[x].transient_ref_count + if x == c && p >= 0x8000_0000 {
                1int
            } else {
                0
            }
            &&& h[x].deleted == (g[x].deleted && x != c)
            &&& h[x].dirty == (g[x].dirty || (x == c && g[c].deleted))
            &&& h[x].modified == (g[x].modified || x == p || x == c)
            &&& h[x].residency == if x == p || x == c {
                Residency::Restored
            } else {
                g[x].residency
            }
            &&& h[x].active == g[x].active
            &&& h[x].in_progress == g[x].in_progress
            &&& h[x].dependencies == g[x].dependencies
            &&& h[x].dependents == g[x].dependents
            &&& h[x].uppers == g[x].uppers
            &&& h[x].followers == g[x].followers
        }),
{
    assert(linked(g, p, c).dom() =~= g.dom());
}

/// Taking a child edge out takes that edge and no other, and the count of it at the child.
pub proof fn law_child_edge_taken_out(g: Graph, p: TaskId, c: TaskId, x: TaskId, y: TaskId)
    requires
        graph_wf(g),
        g.contains_key(p),
        g[p].children.contains(c),
        g.contains_key(x),
    ensures
        ({
            let h = unlinked(g, p, c);
            &&& h.dom() == g.dom()
            &&& h[x].children.contains(y) <==> g[x].children.contains(y) && !(x == p && y == c)
            &&& h[x].parent_count + if x == c && p < 0x8000_0000 {
                1int
            } else {
                0
            } == g[x].parent_count
            &&& h[x].transient_ref_count + if x == c && p >= 0x8000_0000 {
                1int
            } else {
                0
            } == g[x].transient_ref_count
            &&& h[x].modified == (g[x].modified || x == p || x == c)
            &&& h[x].residency == if x == p || x == c {
                Residency::Restored
            } else {
                g[x].residency
            }
            &&& h[x].deleted == g[x].deleted
            &&& h[x].dirty == g[x].dirty
            &&& h[x].active == g[x].active
            &&& h[x].in_progress == g[x].in_progress
            &&& h[x].dependencies == g[x].dependencies
            &&& h[x].dependents == g[x].dependents
            &&& h[x].uppers == g[x].uppers
            &&& h[x].followers == g[x].followers
        }),
{
    assert(g.contains_key(c));
    law_parents_are_those_who_list_the_task(g, c, p);
    assert(unlinked(g, p, c).dom() =~= g.dom());
}

/// Taking a child edge out undoes making it.
pub proof fn law_cut_undoes_link(g: Graph, p: TaskId, c: TaskId, x: TaskId)
    requires
        graph_wf(g),
        g.contains_key(p),
        g.contains_key(c),
        !g[p].deleted,
        !g[p].children.contains(c),
        c >= 0x8000_0000 ==> p >= 0x8000_0000,
        g.contains_key(x),
    ensures
        ({
            let h = unlinked(linked(g, p, c), p, c);
            &&& h[x].children == g[x].children
            &&& h[x].parent_count == g[x].parent_count
            &&& h[x].transient_ref_count == g[x].transient_ref_count
            &&& h[x].dependencies == g[x].dependencies
            &&& h[x].uppers == g[x].uppers
        }),
{
    let h = unlinked(linked(g, p, c), p, c);
    assert(h[x].children =~= g[x].children);
}

/// Whatever a cut leaves without a persistent parent and without a reference from outside is on the dead
/// list afterwards, also where the edge came from a transient parent. So is whatever loses its last
/// persistent parent, held from outside or not. Nothing else is recorded, nothing is taken off the
/// list, and without incremental GC nothing is recorded at all.
pub proof fn law_cut_records_what_it_leaves_unreferenced(
    g: Graph,
    dead: Set<TaskId>,
    p: TaskId,
    c: TaskId,
    x: TaskId,
)
    requires
        graph_wf(g),
        g.contains_key(p),
        g[p].children.contains(c),
    ensures
        ({
            let h = unlinked(g, p, c);
            let after = recorded(Some(GcMode::Incremental), g, dead, p, c);
            &&& c < 0x8000_0000 && h[c].parent_count == 0 && h[c].transient_ref_count == 0
                ==> after.contains(c)
            &&& c < 0x8000_0000 && p < 0x8000_0000 && h[c].parent_count == 0 ==> after.contains(c)
            &&& dead.contains(x) ==> after.contains(x)
            &&& after.contains(x) && !dead.contains(x) ==> {
                &&& x == c
                &&& c < 0x8000_0000
                &&& h[c].parent_count == 0
                &&& p < 0x8000_0000 || h[c].transient_ref_count == 0
            }
            &&& recorded(None, g, dead, p, c) == dead
            &&& recorded(Some(GcMode::Scan), g, dead, p, c) == dead
            &&& last_reference_dropped(g, p, c) <==> h[c].parent_count == 0 && (p < 0x8000_0000
                || h[c].transient_ref_count == 0)
        }),
{
}

/// A new task is there, and bare; the other tasks are as they were.
pub proof fn law_new_task(g: Graph, t: TaskId, x: TaskId)
    requires
        !g.contains_key(t),
    ensures
        with_task(g, t).contains_key(t),
        with_task(g, t)[t].parent_count == 0,
        with_task(g, t)[t].transient_ref_count == 0,
        !with_task(g, t)[t].active,
        !with_task(g, t)[t].in_progress,
        !with_task(g, t)[t].deleted,
        !with_task(g, t)[t].dirty,
        !with_task(g, t)[t].modified,
        with_task(g, t)[t].residency == Residency::Restored,
        with_task(g, t)[t].children.is_empty(),
        with_task(g, t)[t].dependencies.is_empty(),
        with_task(g, t)[t].dependents.is_empty(),
        with_task(g, t)[t].uppers.is_empty(),
        with_task(g, t)[t].followers.is_empty(),
        x != t ==> with_task(g, t).contains_key(x) == g.contains_key(x),
        g.contains_key(x) ==> with_task(g, t)[x] == g[x],
{
}

/// A new aggregation edge stands at both ends, and changes nothing else but that the next snapshot
/// visits the two tasks.
pub proof fn law_new_aggregation_edge(g: Graph, u: TaskId, t: TaskId, x: TaskId, y: TaskId)
    requires
        g.contains_key(u),
        g.contains_key(t),
        g.contains_key(x),
    ensures
        ({
            let h = aggregated(g, u, t);
            &&& h.dom() == g.dom()
            &&& h[x].uppers.contains(y) <==> g[x].uppers.contains(y) || (x == t && y == u)
            &&& h[x].followers.contains(y) <==> g[x].followers.contains(y) || (x == u && y == t)
            &&& h[x].modified == (g[x].modified || x == u || x == t)
            &&& h[x].residency == if x == u || x == t {
                Residency::Restored
            } else {
                g[x].residency
            }
            &&& h[x].parent_count == g[x].parent_count
            &&& h[x].transient_ref_count == g[x].transient_ref_count
            &&& h[x].active == g[x].active
            &&& h[x].in_progress == g[x].in_progress
            &&& h[x].deleted == g[x].deleted
            &&& h[x].dirty == g[x].dirty
            &&& h[x].children == g[x].children
            &&& h[x].dependencies == g[x].dependencies
            &&& h[x].dependents == g[x].dependents
        }),
{
    assert(aggregated(g, u, t).dom() =~= g.dom());
}

/// Taking aggregation edges out takes them out at both ends, and changes nothing else but that the next
/// snapshot visits the lower tasks.
pub proof fn law_aggregation_edges_taken_out(
    g: Graph,
    u: TaskId,
    from: Set<TaskId>,
    x: TaskId,
    y: TaskId,
)
    requires
        g.contains_key(u),
        g.contains_key(x),
    ensures
        ({
            let h = unhooked(g, u, from);
            &&& h.dom() == g.dom()
            &&& h[x].uppers.contains(y) <==> g[x].uppers.contains(y) && !(from.contains(x) && y == u)
            &&& h[x].followers.contains(y) <==> g[x].followers.contains(y) && !(x == u && from.contains(y))
            &&& h[x].modified == (g[x].modified || from.contains(x))
            &&& h[x].residency == if from.contains(x) {
                Residency::Restored
            } else {
                g[x].residency
            }
            &&& h[x].parent_count == g[x].parent_count
            &&& h[x].transient_ref_count == g[x].transient_ref_count
            &&& h[x].active == g[x].active
            &&& h[x].in_progress == g[x].in_progress
            &&& h[x].deleted == g[x].deleted
            &&& h[x].dirty == g[x].dirty
            &&& h[x].children == g[x].children
            &&& h[x].dependencies == g[x].dependencies
            &&& h[x].dependents == g[x].dependents
        }),
{
    assert(unhooked(g, u, from).dom() =~= g.dom());
}

/// A new dependency stands at the task that reads, and its reverse edge at the task that is read.
pub proof fn law_new_dependency(
    g: Graph,
    t: TaskId,
    e: OutdatedEdge,
    x: TaskId,
    other: OutdatedEdge,
    dep: Dependent,
)
    requires
        g.contains_key(t),
        g.contains_key(e.target()),
        g.contains_key(x),
    ensures
        ({
            let h = depending(g, t, e);
            &&& h.dom() == g.dom()
            &&& h[x].dependencies.contains(other) <==> g[x].dependencies.contains(other) || (x == t
                && other == e)
            &&& h[x].dependents.contains(dep) <==> g[x].dependents.contains(dep) || (x == e.target()
                && dep.task == t && dep.edge == e)
            &&& h[x].modified == (g[x].modified || x == t || x == e.target())
            &&& h[x].residency == if x == t || x == e.target() {
                Residency::Restored
            } else {
                g[x].residency
            }
            &&& h[x].parent_count == g[x].parent_count
            &&& h[x].transient_ref_count == g[x].transient_ref_count
            &&& h[x].active == g[x].active
            &&& h[x].in_progress == g[x].in_progress
            &&& h[x].deleted == g[x].deleted
            &&& h[x].dirty == g[x].dirty
            &&& h[x].children == g[x].children
            &&& h[x].uppers == g[x].uppers
            &&& h[x].followers == g[x].followers
        }),
{
    assert(depending(g, t, e).dom() =~= g.dom());
}

/// A pin counts one reference more at its task, an unpin one less; nothing else changes. Only a task
/// with an entry in memory can be pinned.
pub proof fn law_pins_count_one_by_one(g: Graph, t: TaskId, x: TaskId)
    requires
        g.contains_key(t),
        g.contains_key(x),
    ensures
        pinned(g, t)[t].transient_ref_count == g[t].transient_ref_count + 1,
        g[t].transient_ref_count > 0 ==> unpinned(g, t)[t].transient_ref_count + 1
            == g[t].transient_ref_count,
        x != t ==> pinned(g, t)[x] == g[x] && unpinned(g, t)[x] == g[x],
        pinned(g, t)[t].parent_count == g[t].parent_count,
        pinned(g, t)[t].active == g[t].active,
        pinned(g, t)[t].in_progress == g[t].in_progress,
        pinned(g, t)[t].deleted == g[t].deleted,
        pinned(g, t)[t].dirty == g[t].dirty,
        pinned(g, t)[t].modified == g[t].modified,
        pinned(g, t)[t].residency == g[t].residency,
        pinned(g, t)[t].children == g[t].children,
        pinned(g, t)[t].dependencies == g[t].dependencies,
        pinned(g, t)[t].dependents == g[t].dependents,
        pinned(g, t)[t].uppers == g[t].uppers,
        pinned(g, t)[t].followers == g[t].followers,
        pinned(g, t).dom() == g.dom(),
        unpinned(pinned(g, t), t) == g,
        pinned(unpinned(g, t), t) == g || g[t].transient_ref_count == 0,
        resident(g, x) <==> g[x].residency == Residency::Restored || g[x].residency
            == Residency::Retained,
        !resident(g.remove(t), t),
{
    assert(pinned(g, t).dom() =~= g.dom());
    assert(unpinned(pinned(g, t), t) =~= g);
    if g[t].transient_ref_count > 0 {
        assert(pinned(unpinned(g, t), t) =~= g);
    }
}

/// A task that is marked deleted stays, with everything that it holds; the next snapshot visits it.
pub proof fn law_mark_stays_for_the_snapshot(g: Graph, t: TaskId, x: TaskId)
    requires
        g.contains_key(t),
        g.contains_key(x),
    ensures
        ({
            let h = marked_deleted(g, t);
            &&& h.dom() == g.dom()
            &&& h[t].deleted
            &&& h[t].modified
            &&& h[t].residency == Residency::Restored
            &&& x != t ==> h[x] == g[x]
            &&& h[t].parent_count == g[t].parent_count
            &&& h[t].transient_ref_count == g[t].transient_ref_count
            &&& h[t].active == g[t].active
            &&& h[t].in_progress == g[t].in_progress
            &&& h[t].dirty == g[t].dirty
            &&& h[t].children == g[t].children
            &&& h[t].dependencies == g[t].dependencies
            &&& h[t].dependents == g[t].dependents
            &&& h[t].uppers == g[t].uppers
            &&& h[t].followers == g[t].followers
        }),
{
    assert(marked_deleted(g, t).dom() =~= g.dom());
}

/// Giving edges up takes exactly these edges from the task, counts each child among them once less, and
/// takes the reverse edge of each dependency among them; the next snapshot visits whatever is at the
/// other end.
pub proof fn law_edges_given_up(
    g: Graph,
    t: TaskId,
    edges: Set<OutdatedEdge>,
    x: TaskId,
    y: TaskId,
    e: OutdatedEdge,
    dep: Dependent,
)
    requires
        graph_wf(g),
        g.contains_key(t),
        t < 0x8000_0000,
        g.contains_key(x),
        forall|e: OutdatedEdge| #[trigger] edges.contains(e) ==> g[t].has_edge(e),
    ensures
        ({
            let h = cleaned(g, t, edges);
            &&& h.dom() == g.dom()
            &&& h[x].children.contains(y) <==> g[x].children.contains(y) && !(x == t
                && edges.contains(OutdatedEdge::Child(y)))
            &&& h[x].dependencies.contains(e) <==> g[x].dependencies.contains(e) && !(x == t
                && edges.contains(e))
            &&& h[x].dependents.contains(dep) <==> g[x].dependents.contains(dep) && !(dep.task == t
                && edges.contains(dep.edge))
            &&& h[x].parent_count + if edges.contains(OutdatedEdge::Child(x)) {
                1int
            } else {
                0
            } == g[x].parent_count
            &&& edges.contains(e) && e.target() == x ==> h[x].modified && h[x].residency
                == Residency::Restored
            &&& h[x].transient_ref_count == g[x].transient_ref_count
            &&& h[x].active == g[x].active
            &&& h[x].in_progress == g[x].in_progress
            &&& h[x].deleted == g[x].deleted
            &&& h[x].dirty == g[x].dirty
            &&& h[x].uppers == g[x].uppers
            &&& h[x].followers == g[x].followers
        }),
{
    let h = cleaned(g, t, edges);
    assert(h.dom() =~= g.dom());
    if edges.contains(OutdatedEdge::Child(x)) {
        assert(g[t].has_edge(OutdatedEdge::Child(x)));
        law_parents_are_those_who_list_the_task(g, x, t);
    }
    if edges.contains(e) && e.target() == x {
        assert(reached(edges, x));
    }
    if g[x].dependents.contains(dep) {
        assert(g[dep.task].dependencies.contains(dep.edge));
    }
}

/// A task of the dead list that no persistent task has as a child, that nothing outside the graph
/// refers to, that is neither active nor in progress nor deleted, and that is below no aggregation node,
/// is collected, whatever its children, followers, dependencies and dependents are, and wherever its
/// data is.
pub proof fn law_listed_garbage_is_collected(
    from: TurboTasksBackend,
    to: TurboTasksBackend,
    stats: GcPassStats,
    t: TaskId,
)
    requires
        from.wf(),
        passed(GcMode::Incremental, from, to, stats),
        from.gc_dead_list@.contains(t),
        t < 0x8000_0000,
        from.storage@[t].parent_count == 0,
        from.storage@[t].transient_ref_count == 0,
        !from.storage@[t].active,
        !from.storage@[t].in_progress,
        !from.storage@[t].deleted,
        forall|u: TaskId| !from.storage@[t].uppers.contains(u),
    ensures
        to.storage@[t].deleted,
        stats.collected >= 1,
{
    let order = lemma_some_order(GcMode::Incremental, from, to, stats);
    law_collectible_seed_is_collected(
        GcMode::Incremental,
        from.storage@,
        from.gc_dead_list@,
        order,
        t,
    );
    law_collected_are_counted(GcMode::Incremental, from, to, stats);
    lemma_len_of_member(from.storage@, to.storage@, t);
}

/// A scan collects every such task that is in memory.
pub proof fn law_resident_garbage_is_collected(
    from: TurboTasksBackend,
    to: TurboTasksBackend,
    stats: GcPassStats,
    t: TaskId,
)
    requires
        from.wf(),
        passed(GcMode::Scan, from, to, stats),
        from.storage@.contains_key(t),
        from.storage@[t].residency == Residency::Restored,
        t < 0x8000_0000,
        from.storage@[t].parent_count == 0,
        from.storage@[t].transient_ref_count == 0,
        !from.storage@[t].active,
        !from.storage@[t].in_progress,
        !from.storage@[t].deleted,
        forall|u: TaskId| !from.storage@[t].uppers.contains(u),
    ensures
        to.storage@[t].deleted,
        stats.collected >= 1,
{
    let order = lemma_some_order(GcMode::Scan, from, to, stats);
    law_collectible_seed_is_collected(
        GcMode::Scan,
        from.storage@,
        from.gc_dead_list@,
        order,
        t,
    );
    law_collected_are_counted(GcMode::Scan, from, to, stats);
    lemma_len_of_member(from.storage@, to.storage@, t);
}

/// A count of the collected is not zero where one was collected.
proof fn lemma_len_of_member(g: Graph, h: Graph, t: TaskId)
    requires
        h.dom() == g.dom(),
        g.dom().finite(),
        h.contains_key(t),
        h[t].deleted,
        !g[t].deleted,
    ensures
        Set::new(|x: TaskId| g.contains_key(x) && h[x].deleted && !g[x].deleted).len() >= 1,
{
    let d = Set::new(|x: TaskId| g.contains_key(x) && h[x].deleted && !g[x].deleted);
    assert(d.subset_of(g.dom()));
    lemma_set_subset_finite(g.dom(), d);
    if d.len() == 0 {
        d.lemma_len0_is_empty();
        assert(d.contains(t));
    }
}

/// The cascade: a task that is not held from outside, not active, not in progress and not deleted, whose
/// uppers are among its parents, and whose parents are all collected, is collected with them.
pub proof fn law_children_follow_their_parents(
    mode: GcMode,
    from: TurboTasksBackend,
    to: TurboTasksBackend,
    stats: GcPassStats,
    p: TaskId,
    t: TaskId,
)
    requires
        from.wf(),
        passed(mode, from, to, stats),
        from.storage@.contains_key(p),
        p < 0x8000_0000,
        from.storage@[p].children.contains(t),
        from.storage@[t].transient_ref_count == 0,
        !from.storage@[t].active,
        !from.storage@[t].in_progress,
        forall|u: TaskId| #[trigger]
            from.storage@[t].uppers.contains(u) ==> u < 0x8000_0000 && from.storage@.contains_key(u)
                && from.storage@[u].children.contains(t),
        forall|q: TaskId| #[trigger]
            from.storage@[q].children.contains(t) && from.storage@.contains_key(q)
                ==> to.storage@[q].deleted,
    ensures
        to.storage@[t].deleted,
{
    let g = from.storage@;
    let h = to.storage@;
    let dead = from.gc_dead_list@;
    let order = lemma_some_order(mode, from, to, stats);
    let s0 = start(mode, g, dead);
    let x = set![t];
    broadcast use vstd::multiset::group_multiset_axioms;

    law_pass_effect(mode, g, dead, order);
    lemma_start(mode, g, dead);
    assert(g.contains_key(t));
    assert(parents(g, t).contains(p));
    assert(!g[t].deleted);
    assert(awaiting(s0, x)) by {
        assert forall|c: TaskId, u: TaskId| #[trigger]
            g[c].uppers.contains(u) && x.contains(c) implies ancestor(g, u, c) by {
            let path = seq![u, c];
            assert(parents(g, c).contains(u));
            assert(descent(g, path));
            assert(path[0] == u && path.last() == c);
        }
        assert(below_ancestors(g, x));
    }
    lemma_thorough_run(mode, s0, order, x);
    let d = newly_deleted(g, h);
    assert forall|q: TaskId| parents(g, t).contains(q) implies d.contains(q) by {
        assert(g[q].children.contains(t));
        assert(h.contains_key(q));
    }
    assert(x.contains(t));
    assert(!run(mode, s0, order).pending.contains(t));
}

/// What was collected was garbage: a persistent task that nothing outside the graph referred to, neither
/// active nor in progress, and every task that had it as a child, or was its upper, was collected too.
pub proof fn law_collected_was_garbage(
    mode: GcMode,
    from: TurboTasksBackend,
    to: TurboTasksBackend,
    stats: GcPassStats,
    t: TaskId,
    q: TaskId,
)
    requires
        from.wf(),
        passed(mode, from, to, stats),
        to.storage@.contains_key(t),
        to.storage@[t].deleted,
        !from.storage@[t].deleted,
    ensures
        t < 0x8000_0000,
        from.storage@[t].transient_ref_count == 0,
        !from.storage@[t].active,
        !from.storage@[t].in_progress,
        from.storage@.contains_key(q) && from.storage@[q].children.contains(t)
            ==> to.storage@[q].deleted && !from.storage@[q].deleted,
        from.storage@[t].uppers.contains(q) ==> to.storage@[q].deleted && !from.storage@[q].deleted,
        from.gc_dead_list@.contains(t) || from.storage@[t].parent_count > 0 || mode == GcMode::Scan,
        mode == GcMode::Scan ==> from.storage@[t].parent_count > 0 || from.storage@[t].residency
            == Residency::Restored,
{
    let g = from.storage@;
    let h = to.storage@;
    let order = lemma_some_order(mode, from, to, stats);
    law_pass_effect(mode, g, from.gc_dead_list@, order);
    law_only_garbage_is_collected(mode, g, from.gc_dead_list@, order, t);
    lemma_parentless(g, t);
    if g.contains_key(q) && g[q].children.contains(t) {
        if q < 0x8000_0000 {
            assert(parents(g, t).contains(q));
        } else {
            assert(transient_parents(g, t).contains(q));
        }
    }
    law_collects_the_condemned(mode, g, from.gc_dead_list@, order);
    lemma_condemned(g, seeds(mode, g, from.gc_dead_list@));
}

/// What a pass leaves of a task that it did not collect: everything but the uppers and dependents that it
/// collected. The task's marks stay as they were.
pub proof fn law_survivor_is_left_as_it_was(
    mode: GcMode,
    from: TurboTasksBackend,
    to: TurboTasksBackend,
    stats: GcPassStats,
    t: TaskId,
    u: TaskId,
    dep: Dependent,
)
    requires
        from.wf(),
        passed(mode, from, to, stats),
        from.storage@.contains_key(t),
        to.storage@[t].deleted == from.storage@[t].deleted,
    ensures
        ({
            let g = from.storage@;
            let h = to.storage@;
            &&& h.dom() == g.dom()
            &&& h[t].children == g[t].children
            &&& h[t].dependencies == g[t].dependencies
            &&& h[t].followers == g[t].followers
            &&& h[t].transient_ref_count == g[t].transient_ref_count
            &&& h[t].active == g[t].active
            &&& h[t].in_progress == g[t].in_progress
            &&& h[t].dirty == g[t].dirty
            &&& h[t].uppers.contains(u) <==> g[t].uppers.contains(u) && !(h[u].deleted
                && !g[u].deleted)
            &&& h[t].dependents.contains(dep) <==> g[t].dependents.contains(dep) && !(
            h[dep.task].deleted && !g[dep.task].deleted)
            &&& h[t].parent_count <= g[t].parent_count
            &&& h[t].parent_count == parents(h, t).len()
            &&& g[t].modified ==> h[t].modified
            &&& g[t].residency == Residency::Restored ==> h[t].residency == Residency::Restored
        }),
{
    let g = from.storage@;
    let h = to.storage@;
    let dead = from.gc_dead_list@;
    let d = newly_deleted(g, h);
    let order = lemma_some_order(mode, from, to, stats);
    law_pass_effect(mode, g, dead, order);
    assert(h.dom() =~= g.dom());
    lemma_parents_finite(g, t);
    lemma_len_subset(parents(g, t).difference(d), parents(g, t));
    if g[t].uppers.contains(u) {
        assert(g.contains_key(u));
        assert(h.contains_key(u));
    }
    if g[t].dependents.contains(dep) {
        assert(g.contains_key(dep.task));
        assert(h.contains_key(dep.task));
    }
}

/// Whatever lost a parent, an upper or a dependent to a pass is visited by the next snapshot, and in
/// memory. What lost nothing is as it was, to the last field, but that a
/// candidate was brought into memory.
pub proof fn law_pass_marks_what_it_reaches(
    mode: GcMode,
    from: TurboTasksBackend,
    to: TurboTasksBackend,
    stats: GcPassStats,
    p: TaskId,
    t: TaskId,
)
    requires
        from.wf(),
        passed(mode, from, to, stats),
        from.storage@.contains_key(t),
    ensures
        ({
            let g = from.storage@;
            let h = to.storage@;
            &&& g.contains_key(p) && h[p].deleted && !g[p].deleted && (g[p].children.contains(t)
                || g[p].followers.contains(t) || exists|e: OutdatedEdge| #[trigger]
                g[p].dependencies.contains(e) && e.target() == t) ==> h[t].modified
                && h[t].residency == Residency::Restored
            &&& mode == GcMode::Incremental && from.gc_dead_list@.contains(t) ==> h[t].residency
                == Residency::Restored
            &&& h[t].deleted == g[t].deleted && h[t].parent_count == g[t].parent_count
                && h[t].uppers == g[t].uppers && h[t].dependents == g[t].dependents ==> {
                &&& h[t].modified == g[t].modified
                &&& mode == GcMode::Scan || !from.gc_dead_list@.contains(t) ==> h[t] == g[t]
            }
        }),
{
    let g = from.storage@;
    let h = to.storage@;
    let dead = from.gc_dead_list@;
    let d = newly_deleted(g, h);
    let order = lemma_some_order(mode, from, to, stats);
    law_pass_effect(mode, g, dead, order);
    if g.contains_key(p) && h[p].deleted && !g[p].deleted && (g[p].children.contains(t)
        || g[p].followers.contains(t) || exists|e: OutdatedEdge| #[trigger]
        g[p].dependencies.contains(e) && e.target() == t) {
        assert(h.contains_key(p));
        assert(d.contains(p));
        assert(touches(g, p, t));
        assert(touched(g, d, t));
    }
    if h[t].deleted == g[t].deleted && h[t].parent_count == g[t].parent_count && h[t].uppers
        == g[t].uppers && h[t].dependents == g[t].dependents {
        assert(!d.contains(t));
        if touched(g, d, t) {
            let q = choose|q: TaskId| #[trigger] d.contains(q) && touches(g, q, t);
            assert(g.contains_key(q));
            law_collected_was_garbage(mode, from, to, stats, q, q);
            if g[q].children.contains(t) {
                assert(parents(g, t).contains(q));
                lemma_parents_finite(g, t);
                assert(!parents(g, t).difference(d).contains(q));
                lemma_len_subset(parents(g, t).difference(d), parents(g, t).remove(q));
            } else if g[q].followers.contains(t) {
                assert(g[t].uppers.contains(q));
                assert(!h[t].uppers.contains(q));
            } else {
                let e = choose|e: OutdatedEdge| #[trigger]
                    g[q].dependencies.contains(e) && e.target() == t;
                let dep = Dependent { task: q, edge: e };
                assert(g[t].dependents.contains(dep));
                assert(!h[t].dependents.contains(dep));
            }
        }
        assert(torn_down(g, d)[t] =~= g[t]);
        if mode == GcMode::Scan || !dead.contains(t) {
            assert(h[t] =~= g[t]);
        }
    }
}

/// What a pass leaves of a task that it collected: the task is there, marked for the snapshot, and holds
/// no edge; nobody has it as a child, and nobody's dependent it is.
pub proof fn law_collected_is_stripped(
    mode: GcMode,
    from: TurboTasksBackend,
    to: TurboTasksBackend,
    stats: GcPassStats,
    t: TaskId,
    x: TaskId,
    dep: Dependent,
)
    requires
        from.wf(),
        passed(mode, from, to, stats),
        from.storage@.contains_key(t),
        to.storage@[t].deleted,
        !from.storage@[t].deleted,
    ensures
        ({
            let h = to.storage@;
            &&& h.contains_key(t)
            &&& h[t].modified
            &&& h[t].residency == Residency::Restored
            &&& h[t].parent_count == 0
            &&& h[t].children.is_empty()
            &&& h[t].dependencies.is_empty()
            &&& h[t].followers.is_empty()
            &&& h[t].uppers.is_empty()
            &&& h[t].dirty == from.storage@[t].dirty
            &&& h[t].dependents.contains(dep) <==> from.storage@[t].dependents.contains(dep) && !(
            h[dep.task].deleted && !from.storage@[dep.task].deleted)
            &&& h.contains_key(x) ==> !h[x].children.contains(t) && !h[x].uppers.contains(t)
                && !h[x].followers.contains(t)
            &&& h.contains_key(x) && h[x].dependents.contains(dep) ==> dep.task != t
        }),
{
    let h = to.storage@;
    let order = lemma_some_order(mode, from, to, stats);
    law_pass_effect(mode, from.storage@, from.gc_dead_list@, order);
    assert(h.contains_key(t));
    if from.storage@[t].dependents.contains(dep) {
        assert(from.storage@.contains_key(dep.task));
        assert(h.contains_key(dep.task));
    }
    lemma_parentless(h, t);
    if h.contains_key(x) {
        law_no_edge_is_left(h, x, t);
    }
}

/// The statistics count what happened: `collected` the tasks that are deleted now and were not before,
/// and `seed_candidates` the dead list, or, of a scan, the tasks in memory that can be collected.
pub proof fn law_collected_are_counted(
    mode: GcMode,
    from: TurboTasksBackend,
    to: TurboTasksBackend,
    stats: GcPassStats,
)
    requires
        from.wf(),
        passed(mode, from, to, stats),
    ensures
        ({
            let g = from.storage@;
            let h = to.storage@;
            &&& h.dom() == g.dom()
            &&& stats.mode == mode
            &&& stats.collected == Set::new(
                |t: TaskId| g.contains_key(t) && h[t].deleted && !g[t].deleted,
            ).len()
            &&& mode == GcMode::Incremental ==> stats.seed_candidates == from.gc_dead_list@.len()
            &&& mode == GcMode::Scan ==> stats.seed_candidates == Set::new(
                |t: TaskId|
                    g.contains_key(t) && t < 0x8000_0000 && g[t].residency == Residency::Restored
                        && g[t].parent_count == 0 && g[t].transient_ref_count == 0 && !g[t].active
                        && !g[t].in_progress && !g[t].deleted && g[t].uppers.is_empty(),
            ).len()
            &&& to.gc == from.gc
            &&& to.stopping == from.stopping
            &&& forall|t: TaskId| #[trigger] g.contains_key(t) && g[t].deleted ==> h[t].deleted
        }),
{
    let g = from.storage@;
    let h = to.storage@;
    let order = lemma_some_order(mode, from, to, stats);
    law_pass_effect(mode, g, from.gc_dead_list@, order);
    assert(h.dom() =~= g.dom());
    assert(newly_deleted(g, h) =~= Set::new(
        |t: TaskId| g.contains_key(t) && h[t].deleted && !g[t].deleted,
    ));
    assert(scan_seeds(g) =~= Set::new(
        |t: TaskId|
            g.contains_key(t) && t < 0x8000_0000 && g[t].residency == Residency::Restored
                && g[t].parent_count == 0 && g[t].transient_ref_count == 0 && !g[t].active
                && !g[t].in_progress && !g[t].deleted && g[t].uppers.is_empty(),
    ));
    assert forall|t: TaskId| #[trigger] g.contains_key(t) && g[t].deleted implies h[t].deleted by {
        assert(h.contains_key(t));
    }
}

/// A scan leaves the dead list alone, puts nothing back and drops nothing.
pub proof fn law_scan_leaves_the_dead_list_alone(
    from: TurboTasksBackend,
    to: TurboTasksBackend,
    stats: GcPassStats,
)
    requires
        from.wf(),
        passed(GcMode::Scan, from, to, stats),
    ensures
        to.gc_dead_list@ == from.gc_dead_list@,
        stats.requeued == 0,
        stats.dropped_stale == 0,
{
    let order = lemma_some_order(GcMode::Scan, from, to, stats);
    law_scan_is_never_stale(from.storage@, from.gc_dead_list@, order);
}

/// What is on the dead list after an incremental pass: persistent tasks without a persistent parent that
/// were on it before, or lost a parent to the pass; of these, all that are not deleted. Each entry was
/// counted.
pub proof fn law_dead_list_after_a_pass(
    from: TurboTasksBackend,
    to: TurboTasksBackend,
    stats: GcPassStats,
    p: TaskId,
    t: TaskId,
)
    requires
        from.wf(),
        passed(GcMode::Incremental, from, to, stats),
        from.storage@.contains_key(t),
    ensures
        ({
            let g = from.storage@;
            let h = to.storage@;
            let before = from.gc_dead_list@;
            let after = to.gc_dead_list@;
            &&& after.contains(t) ==> t < 0x8000_0000 && h[t].parent_count == 0 && !g[t].deleted && (
            before.contains(t) || g[t].parent_count > 0)
            &&& before.contains(t) && h[t].parent_count == 0 && !h[t].deleted ==> after.contains(t)
            &&& g.contains_key(p) && p < 0x8000_0000 && g[p].children.contains(t) && h[t].parent_count
                == 0 && !h[t].deleted ==> after.contains(t)
            &&& after.finite()
            &&& after.len() <= stats.requeued
            &&& stats.requeued == 0 ==> after.is_empty()
        }),
{
    broadcast use vstd::multiset::group_multiset_axioms;

    let g = from.storage@;
    let h = to.storage@;
    let mode = GcMode::Incremental;
    let dead = from.gc_dead_list@;
    let order = lemma_some_order(mode, from, to, stats);
    let s0 = start(mode, g, dead);
    let end = run(mode, s0, order);
    lemma_start(mode, g, dead);
    lemma_run(mode, s0, order);
    lemma_pass_graph(s0, order.to_set(), end);
    lemma_parentless(g, t);
    assert forall|c: TaskId| #[trigger]
        s0.tasks.contains_key(c) && still_parentless(
            c,
            s0.tasks[c],
        ) implies s0.dead.contains(c) || s0.pending.contains(c) || (parents(
        s0.tasks,
        c,
    ).is_empty() && !s0.pending.contains(c) && !s0.dead.contains(c)) by {
        lemma_parentless(g, c);
    }
    lemma_remembered_run(s0, order);
    lemma_entries_counted_run(s0, order);
    assert(end.tasks.contains_key(t));
    assert(s0.pending.count(t) == if dead.contains(t) { 1nat } else { 0 });
    assert(!end.pending.contains(t));
    if end.dead.is_empty() {
    } else if stats.requeued == 0 {
        end.dead.lemma_len0_is_empty();
    }
    if g.contains_key(p) && p < 0x8000_0000 && g[p].children.contains(t) {
        assert(parents(g, t).contains(p));
        assert(t < 0x8000_0000);
    }
}

/// Candidates that were resurrected, or were collected before, are dropped and counted, one each, and no
/// others: where each candidate that has parents keeps one, `dropped_stale` is the number of those on the
/// dead list that had a parent or were deleted.
pub proof fn law_stale_candidates_are_counted(
    from: TurboTasksBackend,
    to: TurboTasksBackend,
    stats: GcPassStats,
)
    requires
        from.wf(),
        passed(GcMode::Incremental, from, to, stats),
        forall|t: TaskId| #[trigger]
            from.gc_dead_list@.contains(t) && from.storage@[t].parent_count > 0 ==> exists|p: TaskId|
                from.storage@.contains_key(p) && p < 0x8000_0000 && #[trigger]
                from.storage@[p].children.contains(t) && !to.storage@[p].deleted,
    ensures
        stats.dropped_stale == Set::new(
            |t: TaskId|
                from.gc_dead_list@.contains(t) && (from.storage@[t].parent_count > 0
                    || from.storage@[t].deleted),
        ).len(),
{
    broadcast use vstd::multiset::group_multiset_axioms;

    let g = from.storage@;
    let h = to.storage@;
    let mode = GcMode::Incremental;
    let dead = from.gc_dead_list@;
    let order = lemma_some_order(mode, from, to, stats);
    let s0 = start(mode, g, dead);
    let end = run(mode, s0, order);
    let stale = Set::new(
        |t: TaskId| dead.contains(t) && (g[t].parent_count > 0 || g[t].deleted),
    );
    let lost = newly_deleted(g, h);
    lemma_start(mode, g, dead);
    assert(stale.subset_of(g.dom()));
    lemma_set_subset_finite(g.dom(), stale);
    assert forall|t: TaskId| #[trigger] s0.pending.count(t) > 0 && !parents(
        g,
        t,
    ).is_empty() implies exists|p: TaskId| parents(g, t).contains(p) && !lost.contains(p) by {
        assert(dead.contains(t));
        lemma_parentless(g, t);
        let p = choose|p: TaskId|
            g.contains_key(p) && p < 0x8000_0000 && #[trigger] g[p].children.contains(t)
                && !h[p].deleted;
        assert(parents(g, t).contains(p) && !lost.contains(p));
    }
    lemma_tallied_run(mode, s0, order, lost, stale);
    assert(stale.intersect(order.to_set()) =~= stale) by {
        assert forall|t: TaskId| stale.contains(t) implies order.to_set().contains(t) by {
            assert(s0.pending.count(t) == 1);
            assert(end.pending.count(t) == 0);
        }
    }
}

/// What one job does with a task that is not to be collected: it is brought into memory and stays as it
/// is otherwise. Without a persistent parent, and not deleted, it goes back on the dead list and is
/// counted as requeued; else it is counted as dropped.
pub proof fn law_job_on_a_stale_candidate(mode: GcMode, s: PassState, t: TaskId, x: TaskId)
    requires
        s.pending.contains(t),
        s.tasks.contains_key(t),
        !(t < 0x8000_0000 && s.tasks[t].parent_count == 0 && s.tasks[t].transient_ref_count == 0
            && !s.tasks[t].active && !s.tasks[t].in_progress && !s.tasks[t].deleted
            && s.tasks[t].uppers.is_empty()),
    ensures
        ({
            let n = job_step(mode, s, t);
            let garbage = t < 0x8000_0000 && s.tasks[t].parent_count == 0 && !s.tasks[t].deleted;
            &&& n.tasks.dom() == s.tasks.dom()
            &&& x != t && s.tasks.contains_key(x) ==> n.tasks[x] == s.tasks[x]
            &&& n.tasks[t].residency == Residency::Restored
            &&& n.tasks[t].deleted == s.tasks[t].deleted
            &&& n.tasks[t].children == s.tasks[t].children
            &&& n.tasks[t].uppers == s.tasks[t].uppers
            &&& n.tasks[t].parent_count == s.tasks[t].parent_count
            &&& n.tasks[t].modified == s.tasks[t].modified
            &&& n.collected == s.collected
            &&& n.pending.count(t) + 1 == s.pending.count(t)
            &&& x != t ==> n.pending.count(x) == s.pending.count(x)
            &&& garbage ==> n.dead == s.dead.insert(t) && n.requeued == s.requeued + 1
                && n.dropped_stale == s.dropped_stale
            &&& !garbage ==> n.dead == s.dead && n.requeued == s.requeued && n.dropped_stale
                == s.dropped_stale + 1
        }),
{
    broadcast use vstd::multiset::group_multiset_axioms;

    assert(job_step(mode, s, t).tasks.dom() =~= s.tasks.dom());
}

/// What one job does with a task that is to be collected: it marks the task, and each child loses a
/// parent. A child that this leaves without one becomes a job of its own if nothing else keeps it; else,
/// in an incremental pass, it goes on the dead list and is counted. Other children, and other tasks,
/// become neither.
pub proof fn law_job_on_garbage(
    mode: GcMode,
    s: PassState,
    t: TaskId,
    c: TaskId,
    dep: Dependent,
)
    requires
        graph_wf(s.tasks),
        s.pending.contains(t),
        s.tasks.contains_key(t),
        t < 0x8000_0000,
        s.tasks[t].parent_count == 0,
        s.tasks[t].transient_ref_count == 0,
        !s.tasks[t].active,
        !s.tasks[t].in_progress,
        !s.tasks[t].deleted,
        s.tasks[t].uppers.is_empty(),
        s.tasks.contains_key(c),
        c != t,
    ensures
        ({
            let n = job_step(mode, s, t);
            let m = n.tasks[c];
            let orphan = s.tasks[t].children.contains(c) && m.parent_count == 0;
            let free = m.transient_ref_count == 0 && !m.active && !m.in_progress && !m.deleted
                && m.uppers.is_empty();
            &&& n.tasks[t].deleted
            &&& n.tasks[t].modified
            &&& n.tasks.dom() == s.tasks.dom()
            &&& n.tasks[t].residency == Residency::Restored
            &&& n.tasks[t].children.is_empty()
            &&& n.tasks[t].dependencies.is_empty()
            &&& n.tasks[t].followers.is_empty()
            &&& n.tasks[t].uppers.is_empty()
            &&& n.tasks[t].parent_count == 0
            &&& n.tasks[t].dirty == s.tasks[t].dirty
            &&& m.children == s.tasks[c].children
            &&& m.dependencies == s.tasks[c].dependencies
            &&& m.followers == s.tasks[c].followers
            &&& m.transient_ref_count == s.tasks[c].transient_ref_count
            &&& m.active == s.tasks[c].active
            &&& m.in_progress == s.tasks[c].in_progress
            &&& m.dirty == s.tasks[c].dirty
            &&& m.dependents.contains(dep) <==> s.tasks[c].dependents.contains(dep) && dep.task != t
            &&& m.modified == (s.tasks[c].modified || s.tasks[t].children.contains(c)
                || s.tasks[t].followers.contains(c) || exists|e: OutdatedEdge| #[trigger]
                s.tasks[t].dependencies.contains(e) && e.target() == c)
            &&& n.collected == s.collected + 1
            &&& n.dropped_stale == s.dropped_stale
            &&& m.parent_count + if s.tasks[t].children.contains(c) {
                1int
            } else {
                0
            } == s.tasks[c].parent_count
            &&& m.uppers == s.tasks[c].uppers.remove(t)
            &&& m.deleted == s.tasks[c].deleted
            &&& n.pending.count(c) == s.pending.count(c) + if orphan && free {
                1int
            } else {
                0
            }
            &&& n.pending.count(t) + 1 == s.pending.count(t)
            &&& n.dead.contains(c) <==> s.dead.contains(c) || (mode == GcMode::Incremental && orphan
                && !free)
            &&& n.dead.contains(t) <==> s.dead.contains(t)
            &&& mode == GcMode::Scan ==> n.requeued == s.requeued
            &&& mode == GcMode::Incremental ==> n.requeued == s.requeued + Set::new(
                |x: TaskId|
                    s.tasks[t].children.contains(x) && n.tasks[x].parent_count == 0 && !(
                    n.tasks[x].transient_ref_count == 0 && !n.tasks[x].active
                        && !n.tasks[x].in_progress && !n.tasks[x].deleted
                        && n.tasks[x].uppers.is_empty()),
            ).len()
        }),
{
    broadcast use vstd::multiset::group_multiset_axioms;

    let g = s.tasks;
    let n = job_step(mode, s, t);
    lemma_parentless(g, t);
    lemma_parents_finite(g, c);
    assert(n.tasks.dom() =~= g.dom());
    assert(set![t].contains(t));
    assert(touched(g, set![t], c) == touches(g, t, c));
    assert(parents(g, t).difference(set![t]) =~= Set::empty());
    assert(zeroed(g, t).subset_of(g.dom()));
    lemma_set_subset_finite(g.dom(), zeroed(g, t));
    lemma_from_set(spawned(g, t));
    assert(!g[t].children.contains(t)) by {
        if g[t].children.contains(t) {
            assert(parents(g, t).contains(t));
        }
    }
    assert(parents(g, c).contains(t) <==> g[t].children.contains(c));
    assert(parents(g, c).difference(set![t]) =~= parents(g, c).remove(t));
    assert(g[c].uppers.difference(set![t]) =~= g[c].uppers.remove(t));
    assert forall|x: TaskId| g[t].children.contains(x) implies x < 0x8000_0000 && g.contains_key(
        x,
    ) by {}
    assert(held_back(g, t) =~= Set::new(
        |x: TaskId|
            g[t].children.contains(x) && n.tasks[x].parent_count == 0 && !(
            n.tasks[x].transient_ref_count == 0 && !n.tasks[x].active && !n.tasks[x].in_progress
                && !n.tasks[x].deleted && n.tasks[x].uppers.is_empty()),
    ));
}

/// What is listed as blocked: the tasks with an entry in memory that are garbage, but that something
/// holds back for now.
pub proof fn law_blocked_tasks_are_held_back_garbage(g: Graph, t: TaskId)
    requires
        g.contains_key(t),
    ensures
        parentless_but_blocked(g, t) <==> t < 0x8000_0000 && g[t].residency != Residency::Disk
            && g[t].parent_count == 0 && !g[t].deleted && (g[t].residency == Residency::Retained
            || g[t].transient_ref_count > 0 || g[t].active || g[t].in_progress || (exists|u: TaskId|
            g[t].uppers.contains(u))),
{
}

/// A pass that is not told its mode takes the configured one, and scans where none is.
pub proof fn law_mode_of_a_pass(mode: GcMode)
    ensures
        mode_or_scan(Some(mode)) == mode,
        mode_or_scan(None) == GcMode::Scan,
{
}

/// Every candidate has one outcome: the dead list, and the tasks that had parents and lost all of them to
/// the pass, are as many as the tasks collected, requeued and dropped.
pub proof fn law_every_candidate_is_counted(
    from: TurboTasksBackend,
    to: TurboTasksBackend,
    stats: GcPassStats,
)
    requires
        from.wf(),
        passed(GcMode::Incremental, from, to, stats),
    ensures
        stats.collected + stats.requeued + stats.dropped_stale == from.gc_dead_list@.len() + Set::new(
            |c: TaskId|
                from.storage@.contains_key(c) && from.storage@[c].parent_count > 0 && (forall|p: TaskId|
                    from.storage@.contains_key(p) && p < 0x8000_0000 && #[trigger]
                    from.storage@[p].children.contains(c) ==> to.storage@[p].deleted),
        ).len(),
{
    let g = from.storage@;
    let h = to.storage@;
    let order = lemma_some_order(GcMode::Incremental, from, to, stats);
    law_pass_effect(GcMode::Incremental, g, from.gc_dead_list@, order);
    law_every_candidate_has_one_outcome(g, from.gc_dead_list@, order);
    let d = newly_deleted(g, h);
    let lost = Set::new(
        |c: TaskId|
            g.contains_key(c) && g[c].parent_count > 0 && (forall|p: TaskId|
                g.contains_key(p) && p < 0x8000_0000 && #[trigger] g[p].children.contains(c)
                    ==> h[p].deleted),
    );
    assert forall|c: TaskId| orphaned(g, d).contains(c) <==> lost.contains(c) by {
        if g.contains_key(c) {
            lemma_parentless(g, c);
            if lost.contains(c) {
                assert forall|p: TaskId| parents(g, c).contains(p) implies d.contains(p) by {
                    assert(g[p].children.contains(c));
                    assert(h.contains_key(p));
                }
            }
            if orphaned(g, d).contains(c) {
                assert forall|p: TaskId|
                    g.contains_key(p) && p < 0x8000_0000 && #[trigger] g[p].children.contains(
                        c,
                    ) implies h[p].deleted by {
                    assert(parents(g, c).contains(p));
                }
            }
        }
    }
    assert(orphaned(g, d) =~= lost);
}

/// Whom a pass starts with: an incremental one with the dead list, a scan with each task in memory that
/// can be collected.
pub proof fn law_candidates_of_a_pass(g: Graph, dead: Set<TaskId>, t: TaskId)
    requires
        g.contains_key(t),
    ensures
        seeds(GcMode::Incremental, g, dead).contains(t) <==> dead.contains(t),
        seeds(GcMode::Scan, g, dead).contains(t) <==> scan_seeds(g).contains(t),
        scan_seeds(g).contains(t) <==> t < 0x8000_0000 && g[t].residency == Residency::Restored
            && g[t].parent_count == 0 && g[t].transient_ref_count == 0 && !g[t].active
            && !g[t].in_progress && !g[t].deleted && (forall|u: TaskId| !g[t].uppers.contains(u)),
        start(GcMode::Incremental, g, dead).dead == Set::<TaskId>::empty(),
        start(GcMode::Scan, g, dead).dead == dead,
        start(GcMode::Incremental, g, dead).tasks == g,
        start(GcMode::Scan, g, dead).tasks == g,
{
}

/// A job is about its task, and a pass under way is what the backend and the counters hold.
pub proof fn law_pass_under_way_is_the_backend(
    backend: TurboTasksBackend,
    pending: Multiset<TaskId>,
    counters: GcCounters,
    jobs: Seq<GcJob>,
    t: TaskId,
    i: int,
)
    requires
        0 <= i < jobs.len(),
    ensures
        under_way(backend, pending, counters).tasks == backend.storage@,
        under_way(backend, pending, counters).dead == backend.gc_dead_list@,
        under_way(backend, pending, counters).pending == pending,
        under_way(backend, pending, counters).collected == counters.collected,
        under_way(backend, pending, counters).requeued == counters.requeued,
        under_way(backend, pending, counters).dropped_stale == counters.dropped_stale,
        countable(under_way(backend, pending, counters)),
        GcJob::Collect(t).task() == t,
        job_tasks(jobs).len() == jobs.len(),
        job_tasks(jobs)[i] == jobs[i]->Collect_0,
{
}

} // verus!
