//! How change propagation edits the graph.
use vstd::prelude::*;
use vstd::set_lib::*;
use crate::graph::{
    aggregation_agrees, counts_agree, deleted_detached, dependents_agree, edges_closed, graph_wf,
    lemma_parents_finite, parents, transient_parents, Graph,
};
use crate::mode::GcMode;
use crate::task::{
    transient, Dependent, OutdatedEdge, Residency, TaskId, TaskModel, TaskStorage,
    TRANSIENT_TASK_BIT,
};
use crate::teardown::{disturbed, unhooked};

verus! {

/// The graph with a new task that nothing refers to.
pub open spec fn with_task(g: Graph, t: TaskId) -> Graph {
    g.insert(t, TaskStorage::fresh())
}

/// The graph in which `p` lists `c` as a child. A collected task comes to life again: the mark is
/// taken off, the task is dirty, since its edges are gone, and the next snapshot visits it.
pub open spec fn linked(g: Graph, p: TaskId, c: TaskId) -> Graph {
    let h = g.insert(
        p,
        disturbed(TaskModel { children: g[p].children.insert(c), ..g[p] }, true),
    );
    let m = disturbed(h[c], true);
    h.insert(
        c,
        if transient(p) {
            TaskModel {
                transient_ref_count: m.transient_ref_count + 1,
                deleted: false,
                dirty: m.dirty || m.deleted,
                ..m
            }
        } else {
            TaskModel {
                parent_count: m.parent_count + 1,
                deleted: false,
                dirty: m.dirty || m.deleted,
                ..m
            }
        },
    )
}

/// The graph in which `p` does not list `c` as a child any more.
pub open spec fn unlinked(g: Graph, p: TaskId, c: TaskId) -> Graph {
    let h = g.insert(
        p,
        disturbed(TaskModel { children: g[p].children.remove(c), ..g[p] }, true),
    );
    let m = disturbed(h[c], true);
    h.insert(
        c,
        if transient(p) {
            TaskModel { transient_ref_count: (m.transient_ref_count - 1) as nat, ..m }
        } else {
            TaskModel { parent_count: (m.parent_count - 1) as nat, ..m }
        },
    )
}

/// Whether the edge from `p` was the last reference to `c` that counts: `c` has no persistent parent,
/// and, if `p` is transient, no other reference from outside the graph either.
pub open spec fn last_reference_dropped(g: Graph, p: TaskId, c: TaskId) -> bool {
    let after = unlinked(g, p, c)[c];
    after.parent_count == 0 && (transient(p) ==> after.transient_ref_count == 0)
}

/// The dead list after the edge from `p` to `c` was taken out: `c` is on it if this dropped the last
/// reference to it, and if candidates are recorded at all.
pub open spec fn recorded(
    gc: Option<GcMode>,
    g: Graph,
    dead: Set<TaskId>,
    p: TaskId,
    c: TaskId,
) -> Set<TaskId> {
    if gc == Some(GcMode::Incremental) && !transient(c) && last_reference_dropped(g, p, c) {
        dead.insert(c)
    } else {
        dead
    }
}

/// The graph in which `u` is an upper of `t`.
pub open spec fn aggregated(g: Graph, u: TaskId, t: TaskId) -> Graph {
    let h = g.insert(
        u,
        disturbed(TaskModel { followers: g[u].followers.insert(t), ..g[u] }, true),
    );
    h.insert(t, disturbed(TaskModel { uppers: h[t].uppers.insert(u), ..h[t] }, true))
}

/// The graph in which `t` holds the dependency `e`, with its reverse edge.
pub open spec fn depending(g: Graph, t: TaskId, e: OutdatedEdge) -> Graph {
    let h = g.insert(
        t,
        disturbed(TaskModel { dependencies: g[t].dependencies.insert(e), ..g[t] }, true),
    );
    let x = e.target();
    h.insert(
        x,
        disturbed(
            TaskModel {
                dependents: h[x].dependents.insert(Dependent { task: t, edge: e }),
                ..h[x]
            },
            true,
        ),
    )
}

/// Whether `t` has an entry in memory.
pub open spec fn resident(g: Graph, t: TaskId) -> bool {
    g.contains_key(t) && g[t].residency != Residency::Disk
}

/// The graph with one more reference to `t` from outside.
pub open spec fn pinned(g: Graph, t: TaskId) -> Graph {
    g.insert(t, TaskModel { transient_ref_count: g[t].transient_ref_count + 1, ..g[t] })
}

/// The graph with one reference to `t` from outside less.
pub open spec fn unpinned(g: Graph, t: TaskId) -> Graph {
    g.insert(
        t,
        TaskModel { transient_ref_count: (g[t].transient_ref_count - 1) as nat, ..g[t] },
    )
}

/// A new task keeps the graph well-formed.
pub proof fn lemma_with_task_wf(g: Graph, t: TaskId)
    requires
        graph_wf(g),
        !g.contains_key(t),
    ensures
        graph_wf(with_task(g, t)),
{
    let h = with_task(g, t);
    assert forall|x: TaskId| g.contains_key(x) implies parents(h, x) == parents(g, x)
        && transient_parents(h, x) == transient_parents(g, x) by {
        assert(parents(h, x) =~= parents(g, x));
        assert(transient_parents(h, x) =~= transient_parents(g, x));
    }
    assert(parents(h, t) =~= Set::empty());
    assert(transient_parents(h, t) =~= Set::empty());
    assert(counts_agree(h));
    assert(deleted_detached(h));
}

/// A new child edge keeps the graph well-formed.
pub proof fn lemma_linked_wf(g: Graph, p: TaskId, c: TaskId)
    requires
        graph_wf(g),
        g.contains_key(p),
        g.contains_key(c),
        !g[p].deleted,
        !g[p].children.contains(c),
        transient(c) ==> transient(p),
    ensures
        graph_wf(linked(g, p, c)),
{
    let h = linked(g, p, c);
    assert(h.dom() =~= g.dom());
    assert forall|x: TaskId| x != c implies parents(h, x) == parents(g, x) && transient_parents(
        h,
        x,
    ) == transient_parents(g, x) by {
        assert(parents(h, x) =~= parents(g, x));
        assert(transient_parents(h, x) =~= transient_parents(g, x));
    }
    lemma_parents_finite(g, c);
    if transient(p) {
        assert(parents(h, c) =~= parents(g, c));
        assert(transient_parents(h, c) =~= transient_parents(g, c).insert(p));
    } else {
        assert(parents(h, c) =~= parents(g, c).insert(p));
        assert(transient_parents(h, c) =~= transient_parents(g, c));
    }
    assert(edges_closed(h));
    assert(counts_agree(h));
    assert(aggregation_agrees(h));
    assert(dependents_agree(h));
    assert(deleted_detached(h));
}

/// Taking a child edge out keeps the graph well-formed; the edge was counted at its other end.
pub proof fn lemma_unlinked_wf(g: Graph, p: TaskId, c: TaskId)
    requires
        graph_wf(g),
        g.contains_key(p),
        g[p].children.contains(c),
    ensures
        graph_wf(unlinked(g, p, c)),
        g.contains_key(c),
        !g[p].deleted,
        !g[c].deleted,
        transient(p) ==> g[c].transient_ref_count > 0,
        !transient(p) ==> g[c].parent_count > 0,
{
    let h = unlinked(g, p, c);
    assert(h.dom() =~= g.dom());
    assert forall|x: TaskId| x != c implies parents(h, x) == parents(g, x) && transient_parents(
        h,
        x,
    ) == transient_parents(g, x) by {
        assert(parents(h, x) =~= parents(g, x));
        assert(transient_parents(h, x) =~= transient_parents(g, x));
    }
    lemma_parents_finite(g, c);
    if transient(p) {
        assert(transient_parents(g, c).contains(p));
        assert(parents(h, c) =~= parents(g, c));
        assert(transient_parents(h, c) =~= transient_parents(g, c).remove(p));
    } else {
        assert(parents(g, c).contains(p));
        assert(parents(h, c) =~= parents(g, c).remove(p));
        assert(transient_parents(h, c) =~= transient_parents(g, c));
    }
    assert(edges_closed(h));
    assert(counts_agree(h));
    assert(aggregation_agrees(h));
    assert(dependents_agree(h));
    assert(deleted_detached(h));
}

/// A new aggregation edge keeps the graph well-formed.
pub proof fn lemma_aggregated_wf(g: Graph, u: TaskId, t: TaskId)
    requires
        graph_wf(g),
        g.contains_key(u),
        g.contains_key(t),
        !g[u].deleted,
        !g[t].deleted,
    ensures
        graph_wf(aggregated(g, u, t)),
{
    let h = aggregated(g, u, t);
    assert(h.dom() =~= g.dom());
    assert forall|x: TaskId| parents(h, x) == parents(g, x) && transient_parents(h, x)
        == transient_parents(g, x) by {
        assert(parents(h, x) =~= parents(g, x));
        assert(transient_parents(h, x) =~= transient_parents(g, x));
    }
    assert(edges_closed(h));
    assert(counts_agree(h));
    assert(aggregation_agrees(h));
    assert(dependents_agree(h));
    assert(deleted_detached(h));
}

/// Taking an aggregation edge out keeps the graph well-formed.
pub proof fn lemma_unhooked_wf(g: Graph, u: TaskId, t: TaskId)
    requires
        graph_wf(g),
        g.contains_key(u),
        g.contains_key(t),
    ensures
        graph_wf(unhooked(g, u, set![t])),
{
    let h = unhooked(g, u, set![t]);
    assert(h.dom() =~= g.dom());
    assert forall|x: TaskId| parents(h, x) == parents(g, x) && transient_parents(h, x)
        == transient_parents(g, x) by {
        assert(parents(h, x) =~= parents(g, x));
        assert(transient_parents(h, x) =~= transient_parents(g, x));
    }
    assert(edges_closed(h));
    assert(counts_agree(h));
    assert(aggregation_agrees(h));
    assert(dependents_agree(h));
    assert(deleted_detached(h));
}

/// A new dependency keeps the graph well-formed.
pub proof fn lemma_depending_wf(g: Graph, t: TaskId, e: OutdatedEdge)
    requires
        graph_wf(g),
        g.contains_key(t),
        g.contains_key(e.target()),
        !g[t].deleted,
        !(e is Child),
    ensures
        graph_wf(depending(g, t, e)),
{
    let h = depending(g, t, e);
    assert(h.dom() =~= g.dom());
    assert forall|x: TaskId| parents(h, x) == parents(g, x) && transient_parents(h, x)
        == transient_parents(g, x) by {
        assert(parents(h, x) =~= parents(g, x));
        assert(transient_parents(h, x) =~= transient_parents(g, x));
    }
    assert(edges_closed(h));
    assert(counts_agree(h));
    assert(aggregation_agrees(h));
    assert(dependents_agree(h));
    assert(deleted_detached(h));
}

/// What is written beside the edges of a task is free, as long as the task's references are counted.
pub proof fn lemma_relabelled_wf(g: Graph, t: TaskId, m: TaskModel)
    requires
        graph_wf(g),
        g.contains_key(t),
        m == (TaskModel {
            transient_ref_count: m.transient_ref_count,
            active: m.active,
            in_progress: m.in_progress,
            modified: m.modified,
            residency: m.residency,
            ..g[t]
        }),
        m.transient_ref_count >= transient_parents(g, t).len(),
    ensures
        graph_wf(g.insert(t, m)),
{
    let h = g.insert(t, m);
    assert(h.dom() =~= g.dom());
    assert forall|x: TaskId| parents(h, x) == parents(g, x) && transient_parents(h, x)
        == transient_parents(g, x) by {
        assert(parents(h, x) =~= parents(g, x));
        assert(transient_parents(h, x) =~= transient_parents(g, x));
    }
    assert(edges_closed(h));
    assert(counts_agree(h));
    assert(aggregation_agrees(h));
    assert(dependents_agree(h));
    assert(deleted_detached(h));
}

/// There are no more persistent tasks than ids below the transient ones.
pub proof fn lemma_persistent_bound(s: Set<TaskId>)
    requires
        forall|t: TaskId| #[trigger] s.contains(t) ==> !transient(t),
    ensures
        s.finite(),
        s.len() <= TRANSIENT_TASK_BIT,
{
    let hi: int = TRANSIENT_TASK_BIT as int;
    let range = set_int_range(0, hi);
    lemma_int_range(0, hi);
    let all = range.map(|i: int| i as TaskId);
    range.lemma_map_finite(|i: int| i as TaskId);
    lemma_map_size_bound(range, all, |i: int| i as TaskId);
    assert forall|t: TaskId| s.contains(t) implies all.contains(t) by {
        assert(range.contains(t as int));
        assert((t as int) as TaskId == t);
    }
    lemma_len_subset(s, all);
}

} // verus!
