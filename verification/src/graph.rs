//! The task graph as a mathematical value, what every graph keeps, and what teardown does to it.
use vstd::prelude::*;
use vstd::set_lib::*;
use crate::task::{transient, Dependent, OutdatedEdge, Residency, TaskId, TaskModel};

verus! {

/// All tasks, in memory and on disk.
pub type Graph = Map<TaskId, TaskModel>;

/// The persistent tasks that list `x` as a child.
pub open spec fn parents(g: Graph, x: TaskId) -> Set<TaskId> {
    Set::new(|p: TaskId| g.contains_key(p) && !transient(p) && g[p].children.contains(x))
}

/// The transient tasks that list `x` as a child.
pub open spec fn transient_parents(g: Graph, x: TaskId) -> Set<TaskId> {
    Set::new(|p: TaskId| g.contains_key(p) && transient(p) && g[p].children.contains(x))
}

/// Edges lead to tasks of the graph, and a persistent task has persistent children only.
pub open spec fn edges_closed(g: Graph) -> bool {
    &&& forall|p: TaskId, c: TaskId| #[trigger]
        g[p].children.contains(c) && g.contains_key(p) ==> g.contains_key(c) && (transient(c)
            ==> transient(p))
    &&& forall|t: TaskId, e: OutdatedEdge| #[trigger]
        g[t].dependencies.contains(e) && g.contains_key(t) ==> g.contains_key(e.target())
            && !(e is Child)
}

/// Each task's counts stand for the parents that it has.
pub open spec fn counts_agree(g: Graph) -> bool {
    forall|x: TaskId| #[trigger]
        g.contains_key(x) ==> g[x].parent_count == parents(g, x).len()
            && g[x].transient_ref_count >= transient_parents(g, x).len()
}

/// Uppers and followers are two views of the same edges.
pub open spec fn aggregation_agrees(g: Graph) -> bool {
    &&& forall|t: TaskId, u: TaskId| #[trigger]
        g[t].uppers.contains(u) && g.contains_key(t) ==> g.contains_key(u)
            && g[u].followers.contains(t)
    &&& forall|u: TaskId, t: TaskId| #[trigger]
        g[u].followers.contains(t) && g.contains_key(u) ==> g.contains_key(t)
            && g[t].uppers.contains(u)
}

/// Every dependency has its reverse edge at the other end, and there is no other reverse edge.
pub open spec fn dependents_agree(g: Graph) -> bool {
    &&& forall|t: TaskId, e: OutdatedEdge| #[trigger]
        g[t].dependencies.contains(e) && g.contains_key(t) ==> g[e.target()].dependents.contains(
            (Dependent { task: t, edge: e }),
        )
    &&& forall|x: TaskId, d: Dependent| #[trigger]
        g[x].dependents.contains(d) && g.contains_key(x) ==> g.contains_key(d.task)
            && g[d.task].dependencies.contains(d.edge) && d.edge.target() == x
}

/// Nothing is left of the edges of a collected task, and nothing lists it as a child.
pub open spec fn deleted_detached(g: Graph) -> bool {
    forall|t: TaskId| #[trigger]
        g.contains_key(t) && g[t].deleted ==> {
            &&& !transient(t)
            &&& parents(g, t).is_empty()
            &&& transient_parents(g, t).is_empty()
            &&& g[t].children.is_empty()
            &&& g[t].dependencies.is_empty()
            &&& g[t].followers.is_empty()
            &&& g[t].uppers.is_empty()
        }
}

/// What every graph keeps.
pub open spec fn graph_wf(g: Graph) -> bool {
    &&& g.dom().finite()
    &&& edges_closed(g)
    &&& counts_agree(g)
    &&& aggregation_agrees(g)
    &&& dependents_agree(g)
    &&& deleted_detached(g)
}

/// Whether teardown of `t` reaches `x`: over a child edge, a dependency or an aggregation edge.
pub open spec fn touches(g: Graph, t: TaskId, x: TaskId) -> bool {
    ||| g[t].children.contains(x)
    ||| g[t].followers.contains(x)
    ||| exists|e: OutdatedEdge| #[trigger] g[t].dependencies.contains(e) && e.target() == x
}

/// Whether teardown of some task of `d` reaches `x`.
pub open spec fn touched(g: Graph, d: Set<TaskId>, x: TaskId) -> bool {
    exists|t: TaskId| #[trigger] d.contains(t) && touches(g, t, x)
}

/// What is left of the dependents of a task once the tasks of `d` have let go of it.
pub open spec fn scrubbed(dependents: Set<Dependent>, d: Set<TaskId>) -> Set<Dependent> {
    Set::new(|dep: Dependent| dependents.contains(dep) && !d.contains(dep.task))
}

/// The task `x` of `g` after the teardown of all of `d`.
pub open spec fn torn_down_task(g: Graph, d: Set<TaskId>, x: TaskId) -> TaskModel {
    let left = TaskModel {
        parent_count: parents(g, x).difference(d).len(),
        uppers: g[x].uppers.difference(d),
        dependents: scrubbed(g[x].dependents, d),
        modified: g[x].modified || d.contains(x) || touched(g, d, x),
        residency: if d.contains(x) || touched(g, d, x) {
            Residency::Restored
        } else {
            g[x].residency
        },
        ..g[x]
    };
    if d.contains(x) {
        TaskModel {
            deleted: true,
            children: Set::empty(),
            dependencies: Set::empty(),
            followers: Set::empty(),
            ..left
        }
    } else {
        left
    }
}

/// The graph after the teardown of all of `d`: those tasks are marked deleted and hold no edge
/// any more; every other task has lost the parents, uppers and dependents that are among them.
pub open spec fn torn_down(g: Graph, d: Set<TaskId>) -> Graph {
    Map::new(|x: TaskId| g.contains_key(x), |x: TaskId| torn_down_task(g, d, x))
}

/// Whether the tasks of `d` can go together: nothing outside `d` refers to one of them as its
/// parent or its upper.
pub open spec fn detached(g: Graph, d: Set<TaskId>) -> bool {
    forall|t: TaskId| #[trigger]
        d.contains(t) ==> {
            &&& g.contains_key(t)
            &&& !transient(t)
            &&& parents(g, t).subset_of(d)
            &&& transient_parents(g, t).is_empty()
            &&& g[t].uppers.subset_of(d)
        }
}

/// A task has finitely many parents.
pub proof fn lemma_parents_finite(g: Graph, x: TaskId)
    requires
        g.dom().finite(),
    ensures
        parents(g, x).finite(),
        transient_parents(g, x).finite(),
{
    assert(parents(g, x).subset_of(g.dom()));
    assert(transient_parents(g, x).subset_of(g.dom()));
    lemma_set_subset_finite(g.dom(), parents(g, x));
    lemma_set_subset_finite(g.dom(), transient_parents(g, x));
}

/// A task is without parents exactly when its count says so.
pub proof fn lemma_parentless(g: Graph, x: TaskId)
    requires
        graph_wf(g),
        g.contains_key(x),
    ensures
        g[x].parent_count == 0 <==> parents(g, x).is_empty(),
        g[x].transient_ref_count == 0 ==> transient_parents(g, x).is_empty(),
{
    lemma_parents_finite(g, x);
    if g[x].parent_count == 0 {
        parents(g, x).lemma_len0_is_empty();
    }
    if g[x].transient_ref_count == 0 {
        transient_parents(g, x).lemma_len0_is_empty();
    }
    if parents(g, x).is_empty() {
        assert(parents(g, x) =~= Set::empty());
    }
}

/// What a task is left with once the tasks of `d` are torn down: its parents are those outside `d`.
pub proof fn lemma_torn_parents(g: Graph, d: Set<TaskId>, x: TaskId)
    requires
        g.dom().finite(),
        detached(g, d),
    ensures
        parents(torn_down(g, d), x) =~= parents(g, x).difference(d),
        transient_parents(torn_down(g, d), x) =~= transient_parents(g, x),
{
    let h = torn_down(g, d);
    assert forall|p: TaskId| parents(h, x).contains(p) <==> parents(g, x).difference(d).contains(p) by {
        if g.contains_key(p) {
            assert(h[p] == torn_down_task(g, d, p));
        }
    }
    assert forall|p: TaskId|
        transient_parents(h, x).contains(p) <==> transient_parents(g, x).contains(p) by {
        if g.contains_key(p) {
            assert(h[p] == torn_down_task(g, d, p));
        }
    }
}

/// Teardown keeps the graph well-formed.
pub proof fn lemma_torn_wf(g: Graph, d: Set<TaskId>)
    requires
        graph_wf(g),
        detached(g, d),
    ensures
        graph_wf(torn_down(g, d)),
        torn_down(g, d).dom() == g.dom(),
{
    let h = torn_down(g, d);
    assert(h.dom() =~= g.dom());
    assert(edges_closed(h));
    assert(counts_agree(h)) by {
        assert forall|x: TaskId| #[trigger] h.contains_key(x) implies h[x].parent_count == parents(
            h,
            x,
        ).len() && h[x].transient_ref_count >= transient_parents(h, x).len() by {
            lemma_torn_parents(g, d, x);
            assert(g.contains_key(x));
        }
    }
    assert(aggregation_agrees(h));
    assert(dependents_agree(h));
    assert(deleted_detached(h)) by {
        assert forall|t: TaskId| #[trigger] h.contains_key(t) && h[t].deleted implies {
            &&& !transient(t)
            &&& parents(h, t).is_empty()
            &&& transient_parents(h, t).is_empty()
            &&& h[t].children.is_empty()
            &&& h[t].dependencies.is_empty()
            &&& h[t].followers.is_empty()
            &&& h[t].uppers.is_empty()
        } by {
            lemma_torn_parents(g, d, t);
            assert(g.contains_key(t));
        }
    }
}

/// Tearing tasks down one after the other comes to the same as tearing them down together.
pub proof fn lemma_torn_compose(g: Graph, d: Set<TaskId>, t: TaskId)
    requires
        graph_wf(g),
        detached(g, d),
        g.contains_key(t),
        !d.contains(t),
    ensures
        torn_down(torn_down(g, d), set![t]) =~= torn_down(g, d.insert(t)),
{
    let h = torn_down(g, d);
    let one = set![t];
    let both = d.insert(t);
    assert forall|x: TaskId| g.contains_key(x) implies torn_down(h, one)[x] == torn_down(g, both)[x] by {
        lemma_torn_parents(g, d, x);
        assert(parents(h, x).difference(one) =~= parents(g, x).difference(both));
        assert(h[x].uppers.difference(one) =~= g[x].uppers.difference(both));
        assert(scrubbed(h[x].dependents, one) =~= scrubbed(g[x].dependents, both));
        assert(touches(h, t, x) == touches(g, t, x)) by {
            assert(h[t] == torn_down_task(g, d, t));
            assert(h[t].dependencies == g[t].dependencies);
        }
        assert(touched(h, one, x) == touches(h, t, x)) by {
            assert(one.contains(t));
        }
        assert(touched(g, both, x) == (touched(g, d, x) || touches(g, t, x))) by {
            assert(both.contains(t));
            if touched(g, d, x) {
                let u = choose|u: TaskId| #[trigger] d.contains(u) && touches(g, u, x);
                assert(both.contains(u));
            }
            if touched(g, both, x) {
                let u = choose|u: TaskId| #[trigger] both.contains(u) && touches(g, u, x);
                if u != t {
                    assert(d.contains(u));
                }
            }
        }
        assert(torn_down(h, one)[x] =~= torn_down(g, both)[x]);
    }
}

} // verus!
