//! The steps of a teardown, and what they come to.
use vstd::prelude::*;
use crate::graph::{
    graph_wf, lemma_parentless, lemma_parents_finite, parents, torn_down, touched, touches, Graph,
};
use crate::task::{collectible, Dependent, OutdatedEdge, Residency, TaskId, TaskModel};

verus! {

/// Whether one of `edges` leads to `x`.
pub open spec fn reached(edges: Set<OutdatedEdge>, x: TaskId) -> bool {
    exists|e: OutdatedEdge| #[trigger] edges.contains(e) && e.target() == x
}

/// A task as it is once something at the other end of an edge was taken back.
pub open spec fn disturbed(m: TaskModel, by: bool) -> TaskModel {
    TaskModel {
        modified: m.modified || by,
        residency: if by {
            Residency::Restored
        } else {
            m.residency
        },
        ..m
    }
}

/// The task `x` once `t` has given up `edges`.
pub open spec fn cleaned_task(
    g: Graph,
    t: TaskId,
    edges: Set<OutdatedEdge>,
    x: TaskId,
) -> TaskModel {
    let m = disturbed(g[x], reached(edges, x));
    TaskModel {
        parent_count: if edges.contains(OutdatedEdge::Child(x)) {
            (m.parent_count - 1) as nat
        } else {
            m.parent_count
        },
        dependents: Set::new(
            |d: Dependent|
                m.dependents.contains(d) && !(d.task == t && edges.contains(d.edge) && !(
                d.edge is Child) && d.edge.target() == x),
        ),
        children: if x == t {
            Set::new(|c: TaskId| m.children.contains(c) && !edges.contains(OutdatedEdge::Child(c)))
        } else {
            m.children
        },
        dependencies: if x == t {
            m.dependencies.difference(edges)
        } else {
            m.dependencies
        },
        ..m
    }
}

/// The graph once the persistent task `t` has given up `edges`: each child among them has lost a
/// parent, and each dependency its reverse edge.
pub open spec fn cleaned(g: Graph, t: TaskId, edges: Set<OutdatedEdge>) -> Graph {
    Map::new(|x: TaskId| g.contains_key(x), |x: TaskId| cleaned_task(g, t, edges, x))
}

/// The graph once `t` is no upper of the tasks `from` any more.
pub open spec fn unhooked(g: Graph, t: TaskId, from: Set<TaskId>) -> Graph {
    Map::new(
        |x: TaskId| g.contains_key(x),
        |x: TaskId|
            {
                let m = disturbed(g[x], from.contains(x));
                TaskModel {
                    uppers: if from.contains(x) {
                        m.uppers.remove(t)
                    } else {
                        m.uppers
                    },
                    followers: if x == t {
                        m.followers.difference(from)
                    } else {
                        m.followers
                    },
                    ..m
                }
            },
    )
}

/// The graph with `t` marked deleted, and the next snapshot told of it.
pub open spec fn marked_deleted(g: Graph, t: TaskId) -> Graph {
    g.insert(
        t,
        TaskModel { deleted: true, modified: true, residency: Residency::Restored, ..g[t] },
    )
}

/// All edges of `t`.
pub open spec fn all_edges(g: Graph, t: TaskId) -> Set<OutdatedEdge> {
    Set::new(|e: OutdatedEdge| g[t].has_edge(e))
}

/// Giving up edges one after the other comes to the same as giving them up together.
pub proof fn lemma_clean_one_more(
    g: Graph,
    t: TaskId,
    edges: Set<OutdatedEdge>,
    e: OutdatedEdge,
)
    requires
        !edges.contains(e),
    ensures
        cleaned(cleaned(g, t, edges), t, set![e]) =~= cleaned(g, t, edges.insert(e)),
{
    let h = cleaned(g, t, edges);
    let one = set![e];
    let both = edges.insert(e);
    assert forall|x: TaskId| g.contains_key(x) implies cleaned(h, t, one)[x] == cleaned(
        g,
        t,
        both,
    )[x] by {
        assert(reached(both, x) == (reached(edges, x) || reached(one, x))) by {
            assert(one.contains(e));
            assert(both.contains(e));
            if reached(edges, x) {
                let f = choose|f: OutdatedEdge| #[trigger] edges.contains(f) && f.target() == x;
                assert(both.contains(f));
            }
            if reached(both, x) {
                let f = choose|f: OutdatedEdge| #[trigger] both.contains(f) && f.target() == x;
                if f != e {
                    assert(edges.contains(f));
                } else {
                    assert(one.contains(f));
                }
            }
        }
        let a = cleaned(h, t, one)[x];
        let b = cleaned(g, t, both)[x];
        assert(a.dependents =~= b.dependents);
        assert(a.children =~= b.children);
        assert(a.dependencies =~= b.dependencies);
        assert(a =~= b);
    }
}

/// So it is with uppers.
pub proof fn lemma_unhook_one_more(g: Graph, t: TaskId, from: Set<TaskId>, f: TaskId)
    requires
        !from.contains(f),
    ensures
        unhooked(unhooked(g, t, from), t, set![f]) =~= unhooked(g, t, from.insert(f)),
{
    let h = unhooked(g, t, from);
    assert forall|x: TaskId| g.contains_key(x) implies unhooked(h, t, set![f])[x] == unhooked(
        g,
        t,
        from.insert(f),
    )[x] by {
        let a = unhooked(h, t, set![f])[x];
        let b = unhooked(g, t, from.insert(f))[x];
        assert(a.uppers =~= b.uppers);
        assert(a.followers =~= b.followers);
        assert(a =~= b);
    }
}

/// Taking no edge back changes nothing.
pub proof fn lemma_clean_nothing(g: Graph, t: TaskId)
    ensures
        cleaned(g, t, Set::empty()) =~= g,
{
    let none = Set::<OutdatedEdge>::empty();
    assert forall|x: TaskId| g.contains_key(x) implies cleaned(g, t, none)[x] == g[x] by {
        let a = cleaned(g, t, none)[x];
        assert(!reached(none, x));
        assert(a.dependents =~= g[x].dependents);
        assert(a.children =~= g[x].children);
        assert(a.dependencies =~= g[x].dependencies);
        assert(a =~= g[x]);
    }
}

/// Letting go of no follower changes nothing.
pub proof fn lemma_unhook_nothing(g: Graph, t: TaskId)
    ensures
        unhooked(g, t, Set::empty()) =~= g,
{
    let none = Set::<TaskId>::empty();
    assert forall|x: TaskId| g.contains_key(x) implies unhooked(g, t, none)[x] == g[x] by {
        let a = unhooked(g, t, none)[x];
        assert(a.uppers =~= g[x].uppers);
        assert(a.followers =~= g[x].followers);
        assert(a =~= g[x]);
    }
}

/// To give up all edges, to let go of the followers and to be marked deleted: that is the teardown of
/// a collectible task.
pub proof fn lemma_steps_tear_down(g: Graph, t: TaskId)
    requires
        graph_wf(g),
        g.contains_key(t),
        collectible(t, g[t]),
    ensures
        marked_deleted(
            unhooked(cleaned(g, t, all_edges(g, t)), t, g[t].followers),
            t,
        ) =~= torn_down(g, set![t]),
{
    let edges = all_edges(g, t);
    let h = cleaned(g, t, edges);
    let k = unhooked(h, t, g[t].followers);
    let a = marked_deleted(k, t);
    let one = set![t];
    let b = torn_down(g, one);
    lemma_parentless(g, t);
    assert forall|x: TaskId| g.contains_key(x) implies a[x] == b[x] by {
        assert(one.contains(t));
        assert(touched(g, one, x) == touches(g, t, x));
        assert((reached(edges, x) || g[t].followers.contains(x)) == touches(g, t, x)) by {
            if reached(edges, x) {
                let e = choose|e: OutdatedEdge| #[trigger] edges.contains(e) && e.target() == x;
                if !(e is Child) {
                    assert(g[t].dependencies.contains(e));
                }
            }
            if g[t].children.contains(x) {
                assert(edges.contains(OutdatedEdge::Child(x)));
            }
            if exists|e: OutdatedEdge| #[trigger]
                g[t].dependencies.contains(e) && e.target() == x {
                let e = choose|e: OutdatedEdge| #[trigger]
                    g[t].dependencies.contains(e) && e.target() == x;
                assert(edges.contains(e));
            }
        }
        lemma_parents_finite(g, x);
        assert(parents(g, x).contains(t) == g[t].children.contains(x));
        assert(edges.contains(OutdatedEdge::Child(x)) == g[t].children.contains(x));
        assert(parents(g, x).difference(one) =~= parents(g, x).remove(t));
        assert(a[x].parent_count == b[x].parent_count);
        assert(a[x].dependents =~= b[x].dependents) by {
            assert forall|d: Dependent| a[x].dependents.contains(d) == b[x].dependents.contains(
                d,
            ) by {
                if g[x].dependents.contains(d) && d.task == t {
                    assert(g[t].dependencies.contains(d.edge));
                    assert(edges.contains(d.edge));
                }
            }
        }
        assert(a[x].uppers =~= b[x].uppers) by {
            assert(g[x].uppers.contains(t) ==> g[t].followers.contains(x));
        }
        if x == t {
            assert(a[x].children =~= Set::empty());
            assert(a[x].dependencies =~= Set::empty()) by {
                assert forall|e: OutdatedEdge| !a[x].dependencies.contains(e) by {
                    if g[t].dependencies.contains(e) {
                        assert(edges.contains(e));
                    }
                }
            }
            assert(a[x].followers =~= Set::empty());
        }
        assert(a[x] =~= b[x]);
    }
}

} // verus!
