//! A collection pass as a pool of jobs that feeds itself, for every order in which the jobs run.
use vstd::prelude::*;
use vstd::multiset::*;
use crate::graph::{
    aggregation_agrees, counts_agree, deleted_detached, dependents_agree, detached, edges_closed,
    graph_wf, lemma_parentless, lemma_torn_compose, lemma_torn_parents, lemma_torn_wf, parents,
    scrubbed, torn_down, touched, touches, transient_parents, Graph,
};
use crate::mode::GcMode;
use crate::task::{collectible, still_parentless, transient, Residency, TaskId, TaskModel};
use crate::vec_set::lemma_push_set;

verus! {

/// A pass under way.
#[verifier::ext_equal]
pub struct PassState {
    pub tasks: Graph,
    /// The dead list.
    pub dead: Set<TaskId>,
    /// The tasks whose collection jobs are still to run.
    pub pending: Multiset<TaskId>,
    pub collected: nat,
    pub requeued: nat,
    pub dropped_stale: nat,
}

/// The graph with the tasks of `ran` brought into memory.
pub open spec fn opened(g: Graph, ran: Set<TaskId>) -> Graph {
    Map::new(
        |x: TaskId| g.contains_key(x),
        |x: TaskId|
            if ran.contains(x) {
                TaskModel { residency: Residency::Restored, ..g[x] }
            } else {
                g[x]
            },
    )
}

/// The children that the teardown of `t` leaves without a persistent parent.
pub open spec fn zeroed(g: Graph, t: TaskId) -> Set<TaskId> {
    Set::new(
        |c: TaskId|
            g[t].children.contains(c) && torn_down(g, set![t])[c].parent_count == 0,
    )
}

/// Those of them that can be collected in turn.
pub open spec fn spawned(g: Graph, t: TaskId) -> Set<TaskId> {
    zeroed(g, t).filter(|c: TaskId| collectible(c, torn_down(g, set![t])[c]))
}

/// Those of them that are blocked.
pub open spec fn held_back(g: Graph, t: TaskId) -> Set<TaskId> {
    zeroed(g, t).filter(|c: TaskId| !collectible(c, torn_down(g, set![t])[c]))
}

/// What one collection job does, run on `t` in a pass of the given mode.
///
/// A task that is collectible is torn down, and each child that this leaves parentless becomes a
/// job of its own or, if blocked, goes on the dead list (of an incremental pass; the next scan
/// finds it again). A candidate that is not collectible goes back on the dead list if it is
/// parentless still, and is dropped if not.
pub open spec fn job_step(mode: GcMode, s: PassState, t: TaskId) -> PassState {
    if collectible(t, s.tasks[t]) {
        PassState {
            tasks: torn_down(s.tasks, set![t]),
            dead: if mode == GcMode::Incremental {
                s.dead.union(held_back(s.tasks, t))
            } else {
                s.dead
            },
            pending: s.pending.remove(t).add(Multiset::from_set(spawned(s.tasks, t))),
            collected: s.collected + 1,
            requeued: if mode == GcMode::Incremental {
                s.requeued + held_back(s.tasks, t).len()
            } else {
                s.requeued
            },
            dropped_stale: s.dropped_stale,
        }
    } else if still_parentless(t, s.tasks[t]) {
        PassState {
            tasks: opened(s.tasks, set![t]),
            dead: s.dead.insert(t),
            pending: s.pending.remove(t),
            requeued: s.requeued + 1,
            ..s
        }
    } else {
        PassState {
            tasks: opened(s.tasks, set![t]),
            pending: s.pending.remove(t),
            dropped_stale: s.dropped_stale + 1,
            ..s
        }
    }
}

/// The pass after the jobs of `order` have run, one after the other.
pub open spec fn run(mode: GcMode, s: PassState, order: Seq<TaskId>) -> PassState
    decreases order.len(),
{
    if order.len() == 0 {
        s
    } else {
        job_step(mode, run(mode, s, order.drop_last()), order.last())
    }
}

/// Whether the pool can run its jobs in this order: each is pending when its turn comes.
pub open spec fn legal(mode: GcMode, s: PassState, order: Seq<TaskId>) -> bool
    decreases order.len(),
{
    order.len() == 0 || {
        &&& legal(mode, s, order.drop_last())
        &&& run(mode, s, order.drop_last()).pending.contains(order.last())
    }
}

/// Whether `order` is a whole schedule of the pass that starts in `s`: the pool can run its jobs in
/// this order, and none is left.
pub open spec fn schedule(mode: GcMode, s: PassState, order: Seq<TaskId>) -> bool {
    &&& legal(mode, s, order)
    &&& run(mode, s, order).pending.len() == 0
}

/// The tasks that a scan finds: in memory, and collectible.
pub open spec fn scan_seeds(g: Graph) -> Set<TaskId> {
    Set::new(
        |t: TaskId|
            g.contains_key(t) && g[t].residency == Residency::Restored && collectible(t, g[t]),
    )
}

/// The candidates that a pass is seeded with.
pub open spec fn seeds(mode: GcMode, g: Graph, dead: Set<TaskId>) -> Set<TaskId> {
    match mode {
        GcMode::Scan => scan_seeds(g),
        GcMode::Incremental => dead,
    }
}

/// The pass as it starts. An incremental pass drains the dead list.
pub open spec fn start(mode: GcMode, g: Graph, dead: Set<TaskId>) -> PassState {
    PassState {
        tasks: g,
        dead: match mode {
            GcMode::Scan => dead,
            GcMode::Incremental => Set::empty(),
        },
        pending: Multiset::from_set(seeds(mode, g, dead)),
        collected: 0,
        requeued: 0,
        dropped_stale: 0,
    }
}

/// Whether the dead list can stand beside the graph: it names persistent tasks of the graph.
pub open spec fn dead_wf(g: Graph, dead: Set<TaskId>) -> bool {
    forall|t: TaskId| #[trigger] dead.contains(t) ==> g.contains_key(t) && !transient(t)
}

/// The tasks that are deleted in `h` and were not in `g`.
pub open spec fn newly_deleted(g: Graph, h: Graph) -> Set<TaskId> {
    Set::new(|t: TaskId| h.contains_key(t) && h[t].deleted && !g[t].deleted)
}

/// What holds at every moment of a pass that started in `s`, after the jobs of `ran`.
pub open spec fn pass_inv(s0: PassState, ran: Set<TaskId>, s: PassState) -> bool {
    let d = newly_deleted(s0.tasks, s.tasks);
    &&& graph_wf(s0.tasks)
    &&& s.tasks == opened(torn_down(s0.tasks, d), ran)
    &&& d.finite()
    &&& detached(s0.tasks, d)
    &&& forall|t: TaskId| #[trigger] d.contains(t) ==> s0.tasks[t].unblocked()
    &&& s.collected == s0.collected + d.len()
    &&& dead_wf(s.tasks, s.dead)
    &&& forall|t: TaskId| #[trigger]
        s.pending.count(t) > 0 ==> s.tasks.contains_key(t) && !transient(t)
}

/// Bringing tasks into memory keeps the graph well-formed, and everyone's parents.
pub proof fn lemma_opened_wf(g: Graph, ran: Set<TaskId>)
    requires
        graph_wf(g),
    ensures
        graph_wf(opened(g, ran)),
        opened(g, ran).dom() == g.dom(),
        forall|x: TaskId| #[trigger] parents(opened(g, ran), x) == parents(g, x),
        forall|x: TaskId| #[trigger]
            transient_parents(opened(g, ran), x) == transient_parents(g, x),
{
    let h = opened(g, ran);
    assert(h.dom() =~= g.dom());
    assert forall|x: TaskId| #[trigger] parents(h, x) == parents(g, x) by {
        assert(parents(h, x) =~= parents(g, x));
    }
    assert forall|x: TaskId| #[trigger] transient_parents(h, x) == transient_parents(g, x) by {
        assert(transient_parents(h, x) =~= transient_parents(g, x));
    }
    assert(edges_closed(h));
    assert(counts_agree(h));
    assert(aggregation_agrees(h));
    assert(dependents_agree(h));
    assert(deleted_detached(h));
}

/// Bringing tasks into memory and tearing one down do not get in each other's way.
pub proof fn lemma_opened_torn(g: Graph, ran: Set<TaskId>, t: TaskId)
    requires
        graph_wf(g),
        g.contains_key(t),
    ensures
        torn_down(opened(g, ran), set![t]) =~= opened(torn_down(g, set![t]), ran.insert(t)),
{
    lemma_opened_wf(g, ran);
    let a = torn_down(opened(g, ran), set![t]);
    let b = opened(torn_down(g, set![t]), ran.insert(t));
    assert forall|x: TaskId| g.contains_key(x) implies a[x] == b[x] by {
        assert(parents(opened(g, ran), x) == parents(g, x));
        assert(touches(opened(g, ran), t, x) == touches(g, t, x)) by {
            assert(opened(g, ran)[t].dependencies == g[t].dependencies);
        }
        assert(set![t].contains(t));
        assert(touched(opened(g, ran), set![t], x) == touches(g, t, x));
        assert(touched(g, set![t], x) == touches(g, t, x));
        assert(a[x] =~= b[x]);
    }
}

/// A teardown brings its task into memory anyway.
pub proof fn lemma_open_then_tear(g: Graph, t: TaskId)
    requires
        graph_wf(g),
        g.contains_key(t),
    ensures
        torn_down(opened(g, set![t]), set![t]) =~= torn_down(g, set![t]),
{
    lemma_opened_torn(g, set![t], t);
    assert forall|x: TaskId| g.contains_key(x) implies opened(
        torn_down(g, set![t]),
        set![t].insert(t),
    )[x] == torn_down(g, set![t])[x] by {
        assert(opened(torn_down(g, set![t]), set![t].insert(t))[x] =~= torn_down(g, set![t])[x]);
    }
}

/// What the graph of a pass under way says of its tasks.
pub proof fn lemma_pass_graph(s0: PassState, ran: Set<TaskId>, s: PassState)
    requires
        pass_inv(s0, ran, s),
    ensures
        graph_wf(s.tasks),
        s.tasks.dom() == s0.tasks.dom(),
        forall|x: TaskId| #[trigger]
            s.tasks.contains_key(x) ==> {
                let d = newly_deleted(s0.tasks, s.tasks);
                &&& s.tasks[x] == TaskModel {
                    residency: s.tasks[x].residency,
                    ..torn_down(s0.tasks, d)[x]
                }
                &&& parents(s.tasks, x) == parents(s0.tasks, x).difference(d)
                &&& transient_parents(s.tasks, x) == transient_parents(s0.tasks, x)
            },
{
    let d = newly_deleted(s0.tasks, s.tasks);
    lemma_torn_wf(s0.tasks, d);
    lemma_opened_wf(torn_down(s0.tasks, d), ran);
    assert forall|x: TaskId| #[trigger] s.tasks.contains_key(x) implies {
        &&& s.tasks[x] == TaskModel {
            residency: s.tasks[x].residency,
            ..torn_down(s0.tasks, d)[x]
        }
        &&& parents(s.tasks, x) == parents(s0.tasks, x).difference(d)
        &&& transient_parents(s.tasks, x) == transient_parents(s0.tasks, x)
    } by {
        lemma_torn_parents(s0.tasks, d, x);
        assert(parents(s.tasks, x) == parents(torn_down(s0.tasks, d), x));
        assert(transient_parents(s.tasks, x) == transient_parents(torn_down(s0.tasks, d), x));
    }
}

/// Every job keeps what holds of a pass.
pub proof fn lemma_step(mode: GcMode, s0: PassState, ran: Set<TaskId>, s: PassState, t: TaskId)
    requires
        pass_inv(s0, ran, s),
        s.pending.contains(t),
    ensures
        pass_inv(s0, ran.insert(t), job_step(mode, s, t)),
        newly_deleted(s0.tasks, job_step(mode, s, t).tasks) == if collectible(t, s.tasks[t]) {
            newly_deleted(s0.tasks, s.tasks).insert(t)
        } else {
            newly_deleted(s0.tasks, s.tasks)
        },
        collectible(t, s.tasks[t]) ==> !newly_deleted(s0.tasks, s.tasks).contains(t)
            && s0.tasks[t].unblocked(),
        spawned(s.tasks, t).finite(),
        held_back(s.tasks, t).finite(),
        zeroed(s.tasks, t).finite(),
{
    let g0 = s0.tasks;
    let d = newly_deleted(g0, s.tasks);
    let n = job_step(mode, s, t);
    lemma_pass_graph(s0, ran, s);
    assert(s.pending.count(t) > 0);
    assert(s.tasks.contains_key(t));
    assert(zeroed(s.tasks, t).subset_of(s.tasks.dom()));
    vstd::set_lib::lemma_set_subset_finite(s.tasks.dom(), zeroed(s.tasks, t));
    if collectible(t, s.tasks[t]) {
        assert(!d.contains(t));
        lemma_parentless(s.tasks, t);
        lemma_torn_compose(g0, d, t);
        lemma_torn_wf(g0, d);
        lemma_opened_torn(torn_down(g0, d), ran, t);
        let e = d.insert(t);
        assert(n.tasks == opened(torn_down(g0, e), ran.insert(t)));
        assert(newly_deleted(g0, n.tasks) =~= e) by {
            assert forall|x: TaskId| newly_deleted(g0, n.tasks).contains(x) == e.contains(x) by {
                if g0.contains_key(x) {
                    assert(n.tasks[x].deleted == (g0[x].deleted || e.contains(x)));
                }
            }
        }
        assert(detached(g0, e)) by {
            assert forall|u: TaskId| #[trigger] e.contains(u) implies {
                &&& g0.contains_key(u)
                &&& !transient(u)
                &&& parents(g0, u).subset_of(e)
                &&& transient_parents(g0, u).is_empty()
                &&& g0[u].uppers.subset_of(e)
            } by {
                if u == t {
                    assert(parents(s.tasks, t) == parents(g0, t).difference(d));
                    assert(s.tasks[t].uppers == g0[t].uppers.difference(d));
                    assert forall|p: TaskId| parents(g0, t).contains(p) implies e.contains(p) by {
                        assert(!parents(s.tasks, t).contains(p));
                    }
                    assert forall|p: TaskId| g0[t].uppers.contains(p) implies e.contains(p) by {
                        assert(!s.tasks[t].uppers.contains(p));
                    }
                } else {
                    assert(d.contains(u));
                }
            }
        }
        assert(n.tasks.dom() =~= s.tasks.dom());
        lemma_torn_wf(s.tasks, set![t]);
        assert forall|x: TaskId| #[trigger] n.pending.count(x) > 0 implies n.tasks.contains_key(x)
            && !transient(x) by {
            broadcast use group_multiset_axioms;

            lemma_from_set(spawned(s.tasks, t));
            if s.pending.count(x) == 0 {
                assert(spawned(s.tasks, t).contains(x));
            }
        }
    } else {
        assert(n.tasks =~= opened(torn_down(g0, d), ran.insert(t)));
        assert(newly_deleted(g0, n.tasks) =~= d);
    }
}

/// What holds of a pass holds after any jobs.
pub proof fn lemma_run(mode: GcMode, s0: PassState, order: Seq<TaskId>)
    requires
        pass_inv(s0, Set::empty(), s0),
        legal(mode, s0, order),
    ensures
        pass_inv(s0, order.to_set(), run(mode, s0, order)),
    decreases order.len(),
{
    if order.len() == 0 {
        assert(order.to_set() =~= Set::empty());
    } else {
        let before = order.drop_last();
        lemma_run(mode, s0, before);
        lemma_step(mode, s0, before.to_set(), run(mode, s0, before), order.last());
        assert(order =~= before.push(order.last()));
        lemma_push_set(before, order.last());
    }
}

/// A pass starts as it goes on.
pub proof fn lemma_start(mode: GcMode, g: Graph, dead: Set<TaskId>)
    requires
        graph_wf(g),
        dead_wf(g, dead),
    ensures
        pass_inv(start(mode, g, dead), Set::empty(), start(mode, g, dead)),
        seeds(mode, g, dead).finite(),
        forall|t: TaskId|
            #![trigger start(mode, g, dead).pending.count(t)]
            start(mode, g, dead).pending.count(t) == if seeds(mode, g, dead).contains(t) {
                1nat
            } else {
                0
            },
        start(mode, g, dead).pending.len() == seeds(mode, g, dead).len(),
{
    let s = start(mode, g, dead);
    let from = seeds(mode, g, dead);
    assert(from.subset_of(g.dom()));
    vstd::set_lib::lemma_set_subset_finite(g.dom(), from);
    assert(newly_deleted(g, g) =~= Set::empty());
    lemma_torn_nothing(g);
    assert(opened(g, Set::empty()) =~= g);
    lemma_from_set(from);
}

/// Tearing nothing down changes nothing.
pub proof fn lemma_torn_nothing(g: Graph)
    requires
        graph_wf(g),
    ensures
        torn_down(g, Set::empty()) =~= g,
{
    let none = Set::<TaskId>::empty();
    assert forall|x: TaskId| g.contains_key(x) implies torn_down(g, none)[x] == g[x] by {
        assert(parents(g, x).difference(none) =~= parents(g, x));
        assert(g[x].uppers.difference(none) =~= g[x].uppers);
        assert(scrubbed(g[x].dependents, none) =~= g[x].dependents);
        assert(torn_down(g, none)[x] =~= g[x]);
    }
}

/// A set of jobs, each to run once.
pub proof fn lemma_from_set(s: Set<TaskId>)
    requires
        s.finite(),
    ensures
        Multiset::from_set(s).len() == s.len(),
        forall|t: TaskId| #[trigger]
            Multiset::from_set(s).count(t) == if s.contains(t) {
                1nat
            } else {
                0
            },
    decreases s.len(),
{
    broadcast use group_multiset_axioms;

    let m = Map::new(|k: TaskId| s.contains(k), |k: TaskId| 1nat);
    assert(m.dom() =~= s);
    assert forall|t: TaskId| #[trigger] Multiset::from_set(s).count(t) == if s.contains(t) {
        1nat
    } else {
        0
    } by {}
    if s.len() == 0 {
        s.lemma_len0_is_empty();
        assert(Multiset::from_set(s) =~= Multiset::empty());
    } else {
        let a = s.choose();
        lemma_from_set(s.remove(a));
        assert(Multiset::from_set(s) =~= Multiset::from_set(s.remove(a)).insert(a));
    }
}

} // verus!
