//! What a pass comes to, whatever the order in which its jobs run.
use vstd::prelude::*;
use vstd::multiset::*;
use vstd::set_lib::*;
use crate::edit::lemma_persistent_bound;
use crate::graph::{
    detached, graph_wf, lemma_parentless, lemma_parents_finite, parents, torn_down, Graph,
};
use crate::mode::GcMode;
use crate::pass::{
    dead_wf, held_back, job_step, legal, lemma_from_set, lemma_pass_graph, lemma_run, lemma_start,
    lemma_step, newly_deleted, pass_inv, run, seeds, spawned, start, zeroed, PassState,
};
use crate::task::{collectible, still_parentless, transient, TaskId};
use crate::vec_set::lemma_push_set;

verus! {

/// The tasks that had parents, all of which are among `d`.
pub open spec fn orphaned(g: Graph, d: Set<TaskId>) -> Set<TaskId> {
    Set::new(
        |c: TaskId|
            g.contains_key(c) && !parents(g, c).is_empty() && parents(g, c).subset_of(d),
    )
}

/// How many candidates a pass has met so far.
pub open spec fn met(s: PassState) -> nat {
    s.collected + s.requeued + s.dropped_stale + s.pending.len()
}

/// Which children a teardown leaves parentless, seen from the start of the pass.
proof fn lemma_zeroed(mode: GcMode, s0: PassState, ran: Set<TaskId>, s: PassState, t: TaskId)
    requires
        pass_inv(s0, ran, s),
        s.pending.contains(t),
        collectible(t, s.tasks[t]),
    ensures
        ({
            let d = newly_deleted(s0.tasks, s.tasks);
            &&& orphaned(s0.tasks, d.insert(t)) == orphaned(s0.tasks, d).union(
                zeroed(s.tasks, t),
            )
            &&& orphaned(s0.tasks, d).disjoint(zeroed(s.tasks, t))
        }),
{
    let g0 = s0.tasks;
    let d = newly_deleted(g0, s.tasks);
    let e = d.insert(t);
    lemma_pass_graph(s0, ran, s);
    lemma_step(mode, s0, ran, s, t);
    assert(s.pending.count(t) > 0);
    assert(s.tasks[t].children == g0[t].children);
    assert forall|c: TaskId| orphaned(g0, e).contains(c) == orphaned(g0, d).union(
        zeroed(s.tasks, t),
    ).contains(c) && !(orphaned(g0, d).contains(c) && zeroed(s.tasks, t).contains(c)) by {
        if g0.contains_key(c) {
            lemma_parents_finite(s.tasks, c);
            let rest = parents(s.tasks, c).difference(set![t]);
            assert(parents(s.tasks, c) == parents(g0, c).difference(d));
            assert(torn_down(s.tasks, set![t])[c].parent_count == rest.len());
            if rest.len() == 0 {
                rest.lemma_len0_is_empty();
            }
            assert(rest.len() == 0 <==> rest =~= Set::empty());
            if parents(g0, c).subset_of(e) {
                assert(rest =~= Set::empty());
                if !parents(g0, c).subset_of(d) {
                    let p = choose|p: TaskId| parents(g0, c).contains(p) && !d.contains(p);
                    assert(e.contains(p));
                    assert(p == t);
                }
            }
            if zeroed(s.tasks, t).contains(c) {
                assert(parents(g0, c).contains(t));
                assert forall|p: TaskId| parents(g0, c).contains(p) implies e.contains(p) by {
                    assert(!rest.contains(p));
                }
            }
            if orphaned(g0, d).contains(c) {
                assert(parents(g0, c).subset_of(e));
            }
        } else {
            assert(!g0[t].children.contains(c));
        }
    }
    assert(orphaned(g0, e) =~= orphaned(g0, d).union(zeroed(s.tasks, t)));
}

/// Whether a pass under way has an outcome, or a job still to run, for every candidate met.
pub open spec fn accounts(mode: GcMode, s0: PassState, s: PassState) -> bool {
    let newly = orphaned(s0.tasks, newly_deleted(s0.tasks, s.tasks));
    &&& mode == GcMode::Incremental ==> met(s) == met(s0) + newly.len()
    &&& met(s) <= met(s0) + newly.len()
}

/// Every job keeps the accounts.
pub proof fn lemma_accounts_step(
    mode: GcMode,
    s0: PassState,
    ran: Set<TaskId>,
    s: PassState,
    t: TaskId,
)
    requires
        pass_inv(s0, ran, s),
        s.pending.contains(t),
        accounts(mode, s0, s),
    ensures
        accounts(mode, s0, job_step(mode, s, t)),
{
    broadcast use group_multiset_axioms;

    let n = job_step(mode, s, t);
    let g = s.tasks;
    lemma_step(mode, s0, ran, s, t);
    lemma_pass_graph(s0, ran, s);
    assert(s.pending.remove(t).len() == s.pending.len() - 1);
    if collectible(t, g[t]) {
        lemma_zeroed(mode, s0, ran, s, t);
        lemma_from_set(spawned(g, t));
        assert(zeroed(g, t) =~= spawned(g, t) + held_back(g, t));
        assert(spawned(g, t).disjoint(held_back(g, t)));
        lemma_set_disjoint_lens(spawned(g, t), held_back(g, t));
        let before = orphaned(s0.tasks, newly_deleted(s0.tasks, g));
        assert(before.subset_of(s0.tasks.dom()));
        lemma_set_subset_finite(s0.tasks.dom(), before);
        lemma_set_disjoint_lens(before, zeroed(g, t));
        assert(orphaned(s0.tasks, newly_deleted(s0.tasks, n.tasks)).len() == before.len() + zeroed(
            g,
            t,
        ).len());
    }
}

/// The accounts hold after any jobs.
pub proof fn lemma_accounts_run(mode: GcMode, s0: PassState, order: Seq<TaskId>)
    requires
        pass_inv(s0, Set::empty(), s0),
        legal(mode, s0, order),
    ensures
        accounts(mode, s0, run(mode, s0, order)),
    decreases order.len(),
{
    if order.len() == 0 {
        let none = newly_deleted(s0.tasks, s0.tasks);
        assert(none =~= Set::empty());
        assert(orphaned(s0.tasks, none) =~= Set::empty()) by {
            assert forall|c: TaskId| !orphaned(s0.tasks, none).contains(c) by {
                if orphaned(s0.tasks, none).contains(c) {
                    let p = choose|p: TaskId| parents(s0.tasks, c).contains(p);
                    assert(none.contains(p));
                }
            }
        }
    } else {
        let before = order.drop_last();
        lemma_accounts_run(mode, s0, before);
        lemma_run(mode, s0, before);
        lemma_accounts_step(
            mode,
            s0,
            before.to_set(),
            run(mode, s0, before),
            order.last(),
        );
    }
}

/// Where the jobs of a pass come from: each is a seed, or was spawned by the teardown of a parent
/// and is collectible until it has run; and the jobs that have run are the seeds and the tasks
/// collected.
pub open spec fn traced(s0: PassState, ran: Set<TaskId>, s: PassState) -> bool {
    let d = newly_deleted(s0.tasks, s.tasks);
    &&& forall|t: TaskId| #[trigger]
        s.pending.contains(t) && !s0.pending.contains(t) ==> (collectible(t, s.tasks[t])
            || d.contains(t)) && !parents(s0.tasks, t).is_empty()
    &&& forall|t: TaskId| #[trigger]
        s0.pending.contains(t) ==> ran.contains(t) || s.pending.contains(t)
    &&& forall|t: TaskId| #[trigger] d.contains(t) ==> ran.contains(t)
    &&& forall|t: TaskId| #[trigger]
        ran.contains(t) && !s0.pending.contains(t) ==> d.contains(t) && !parents(
            s0.tasks,
            t,
        ).is_empty()
}

/// A task that is collectible stays so until it is itself torn down.
proof fn lemma_stays_collectible(g: Graph, t: TaskId, x: TaskId)
    requires
        graph_wf(g),
        g.contains_key(t),
        g.contains_key(x),
        collectible(x, g[x]),
        x != t,
    ensures
        collectible(x, torn_down(g, set![t])[x]),
{
    lemma_parentless(g, x);
    assert(parents(g, x).difference(set![t]) =~= Set::empty());
    assert(g[x].uppers.difference(set![t]) =~= Set::empty());
}

/// Every job keeps track of where jobs come from.
proof fn lemma_traced_step(
    mode: GcMode,
    s0: PassState,
    ran: Set<TaskId>,
    s: PassState,
    t: TaskId,
)
    requires
        pass_inv(s0, ran, s),
        s.pending.contains(t),
        traced(s0, ran, s),
    ensures
        traced(s0, ran.insert(t), job_step(mode, s, t)),
{
    broadcast use group_multiset_axioms;

    let g0 = s0.tasks;
    let n = job_step(mode, s, t);
    let d = newly_deleted(g0, s.tasks);
    let e = newly_deleted(g0, n.tasks);
    lemma_step(mode, s0, ran, s, t);
    lemma_pass_graph(s0, ran, s);
    assert(s.pending.count(t) > 0);
    assert(d.subset_of(e));
    if collectible(t, s.tasks[t]) {
        lemma_from_set(spawned(s.tasks, t));
    }
    assert forall|x: TaskId| #[trigger]
        n.pending.contains(x) && !s0.pending.contains(x) implies (collectible(x, n.tasks[x])
        || e.contains(x)) && !parents(g0, x).is_empty() by {
        if s.pending.contains(x) {
            assert(s.pending.count(x) > 0);
            if !d.contains(x) && x != t && collectible(t, s.tasks[t]) {
                lemma_stays_collectible(s.tasks, t, x);
            }
        } else {
            assert(spawned(s.tasks, t).contains(x));
            assert(s.tasks[t].children == g0[t].children);
            assert(parents(g0, x).contains(t));
        }
    }
}

/// Where jobs come from is known after any jobs.
pub proof fn lemma_traced_run(mode: GcMode, s0: PassState, order: Seq<TaskId>)
    requires
        pass_inv(s0, Set::empty(), s0),
        legal(mode, s0, order),
    ensures
        traced(s0, order.to_set(), run(mode, s0, order)),
    decreases order.len(),
{
    if order.len() == 0 {
        assert(newly_deleted(s0.tasks, s0.tasks) =~= Set::empty());
        assert(order.to_set() =~= Set::empty());
    } else {
        let before = order.drop_last();
        lemma_traced_run(mode, s0, before);
        lemma_run(mode, s0, before);
        lemma_traced_step(mode, s0, before.to_set(), run(mode, s0, before), order.last());
        lemma_push_set(before, order.last());
        assert(order =~= before.push(order.last()));
    }
}

/// Whether `x` holds every task that nothing outside `x` keeps, of those that a pass seeded with
/// `from` gets to see.
pub open spec fn closed_under_collection(g: Graph, from: Set<TaskId>, x: Set<TaskId>) -> bool {
    forall|t: TaskId| #[trigger]
        g.contains_key(t) && !transient(t) && g[t].unblocked() && (from.contains(t) || !parents(
            g,
            t,
        ).is_empty()) && parents(g, t).subset_of(x) && g[t].uppers.subset_of(x) ==> x.contains(t)
}

/// The garbage that hangs on the seeds: the least set that holds each seed which nothing outside
/// the set keeps, and each task whose parents and uppers are all in it and which is not blocked.
pub open spec fn condemned(g: Graph, from: Set<TaskId>) -> Set<TaskId> {
    Set::new(
        |t: TaskId|
            forall|x: Set<TaskId>| #[trigger] closed_under_collection(g, from, x) ==> x.contains(t),
    )
}

/// A condemned task is persistent and not blocked, it is a seed or has parents, and its parents and
/// uppers are condemned with it; and every such task is condemned.
pub proof fn lemma_condemned(g: Graph, from: Set<TaskId>)
    ensures
        closed_under_collection(g, from, condemned(g, from)),
        forall|t: TaskId| #[trigger]
            condemned(g, from).contains(t) ==> {
                &&& g.contains_key(t)
                &&& !transient(t)
                &&& g[t].unblocked()
                &&& from.contains(t) || !parents(g, t).is_empty()
                &&& parents(g, t).subset_of(condemned(g, from))
                &&& g[t].uppers.subset_of(condemned(g, from))
            },
{
    let all = condemned(g, from);
    assert forall|t: TaskId| #[trigger]
        g.contains_key(t) && !transient(t) && g[t].unblocked() && (from.contains(t) || !parents(
            g,
            t,
        ).is_empty()) && parents(g, t).subset_of(all) && g[t].uppers.subset_of(
            all,
        ) implies all.contains(t) by {
        assert forall|x: Set<TaskId>| #[trigger] closed_under_collection(
            g,
            from,
            x,
        ) implies x.contains(t) by {
            assert(parents(g, t).subset_of(x));
            assert(g[t].uppers.subset_of(x));
        }
    }
    let unfolded = Set::new(
        |t: TaskId|
            all.contains(t) && g.contains_key(t) && !transient(t) && g[t].unblocked() && (
            from.contains(t) || !parents(g, t).is_empty()) && parents(g, t).subset_of(all)
                && g[t].uppers.subset_of(all),
    );
    assert(closed_under_collection(g, from, unfolded)) by {
        assert forall|t: TaskId| #[trigger]
            g.contains_key(t) && !transient(t) && g[t].unblocked() && (from.contains(t)
                || !parents(g, t).is_empty()) && parents(g, t).subset_of(unfolded)
                && g[t].uppers.subset_of(unfolded) implies unfolded.contains(t) by {
            assert(parents(g, t).subset_of(all));
            assert(g[t].uppers.subset_of(all));
        }
    }
    assert forall|t: TaskId| #[trigger] all.contains(t) implies unfolded.contains(t) by {}
}

/// A pass collects nothing but condemned tasks.
pub proof fn lemma_sound_run(mode: GcMode, s0: PassState, order: Seq<TaskId>, x: Set<TaskId>)
    requires
        pass_inv(s0, Set::empty(), s0),
        legal(mode, s0, order),
        closed_under_collection(s0.tasks, s0.pending.dom(), x),
    ensures
        newly_deleted(s0.tasks, run(mode, s0, order).tasks).subset_of(x),
    decreases order.len(),
{
    let g0 = s0.tasks;
    if order.len() == 0 {
        assert(newly_deleted(g0, g0) =~= Set::empty());
    } else {
        let before = order.drop_last();
        let t = order.last();
        let s = run(mode, s0, before);
        let d = newly_deleted(g0, s.tasks);
        lemma_sound_run(mode, s0, before, x);
        lemma_run(mode, s0, before);
        lemma_traced_run(mode, s0, before);
        lemma_step(mode, s0, before.to_set(), s, t);
        lemma_pass_graph(s0, before.to_set(), s);
        assert(s.pending.count(t) > 0);
        if collectible(t, s.tasks[t]) {
            lemma_parentless(s.tasks, t);
            assert(parents(s.tasks, t) == parents(g0, t).difference(d));
            assert(s.tasks[t].uppers == g0[t].uppers.difference(d));
            assert forall|p: TaskId| parents(g0, t).contains(p) implies x.contains(p) by {
                assert(!parents(s.tasks, t).contains(p));
            }
            assert forall|p: TaskId| g0[t].uppers.contains(p) implies x.contains(p) by {
                assert(!s.tasks[t].uppers.contains(p));
            }
            assert(g0.contains_key(t));
            assert(x.contains(t));
        }
    }
}

/// A chain of persistent parent-child edges.
pub open spec fn descent(g: Graph, path: Seq<TaskId>) -> bool {
    &&& path.len() >= 2
    &&& forall|i: int|
        #![trigger path[i]]
        0 <= i < path.len() - 1 ==> parents(g, path[i + 1]).contains(path[i])
}

/// Whether `u` is a persistent ancestor of `c`.
pub open spec fn ancestor(g: Graph, u: TaskId, c: TaskId) -> bool {
    exists|path: Seq<TaskId>| #[trigger] descent(g, path) && path[0] == u && path.last() == c
}

/// Whether each persistent upper of a task is an ancestor of the task. Of transient uppers nothing is
/// asked.
pub open spec fn uppers_are_ancestors(g: Graph) -> bool {
    forall|c: TaskId, u: TaskId| #[trigger]
        g[c].uppers.contains(u) && g.contains_key(c) && !transient(u) ==> ancestor(g, u, c)
}

/// Whether each upper of a task of `x` is an ancestor of the task.
pub open spec fn below_ancestors(g: Graph, x: Set<TaskId>) -> bool {
    forall|c: TaskId, u: TaskId| #[trigger]
        g[c].uppers.contains(u) && x.contains(c) ==> ancestor(g, u, c)
}

/// Whether each upper of a task that the seeds condemn is an ancestor of the task. Of the other tasks
/// nothing is asked.
pub open spec fn condemned_below_ancestors(g: Graph, from: Set<TaskId>) -> bool {
    below_ancestors(g, condemned(g, from))
}

/// A graph in which no task has an upper more, nor a parent less, keeps its uppers ancestors.
pub proof fn lemma_uppers_stay_ancestors(g: Graph, h: Graph)
    requires
        uppers_are_ancestors(g),
        forall|x: TaskId| #[trigger]
            h.contains_key(x) ==> h[x].uppers.is_empty() || (g.contains_key(x)
                && h[x].uppers.subset_of(g[x].uppers)),
        forall|x: TaskId| #[trigger] parents(g, x).subset_of(parents(h, x)),
    ensures
        uppers_are_ancestors(h),
{
    assert forall|c: TaskId, u: TaskId| #[trigger]
        h[c].uppers.contains(u) && h.contains_key(c) && !transient(u) implies ancestor(
        h,
        u,
        c,
    ) by {
        assert(g[c].uppers.contains(u));
        lemma_ancestor_stays(g, h, u, c);
    }
}

/// Where no task has a parent less, ancestors stay ancestors.
pub proof fn lemma_ancestor_stays(g: Graph, h: Graph, u: TaskId, c: TaskId)
    requires
        ancestor(g, u, c),
        forall|x: TaskId| #[trigger] parents(g, x).subset_of(parents(h, x)),
    ensures
        ancestor(h, u, c),
{
    let path = choose|path: Seq<TaskId>| #[trigger]
        descent(g, path) && path[0] == u && path.last() == c;
    assert(descent(h, path)) by {
        assert forall|i: int|
            #![trigger path[i]]
            0 <= i < path.len() - 1 implies parents(h, path[i + 1]).contains(path[i]) by {
            assert(parents(g, path[i + 1]).contains(path[i]));
            assert(parents(g, path[i + 1]).subset_of(parents(h, path[i + 1])));
        }
    }
}

/// Where all parents of a task go, its ancestors go.
proof fn lemma_ancestors_go(g: Graph, d: Set<TaskId>, c: TaskId, u: TaskId)
    requires
        detached(g, d),
        parents(g, c).subset_of(d),
        ancestor(g, u, c),
    ensures
        d.contains(u),
{
    let path = choose|path: Seq<TaskId>| #[trigger]
        descent(g, path) && path[0] == u && path.last() == c;
    let n = path.len() - 1;
    assert(parents(g, path[n - 1 + 1]).contains(path[n - 1]));
    lemma_path_goes(g, d, path, n - 1);
}

/// Where one task of a descent goes, its first one goes.
pub proof fn lemma_path_goes(g: Graph, d: Set<TaskId>, path: Seq<TaskId>, i: int)
    requires
        detached(g, d),
        descent(g, path),
        0 <= i < path.len() - 1,
        d.contains(path[i]),
    ensures
        d.contains(path[0]),
    decreases i,
{
    if i > 0 {
        assert(parents(g, path[i - 1 + 1]).contains(path[i - 1]));
        lemma_path_goes(g, d, path, i - 1);
    }
}

/// Whether the tasks of `x` can be collected once their parents are: they are persistent, not blocked,
/// seeds or children, and below ancestors only.
pub open spec fn awaiting(s0: PassState, x: Set<TaskId>) -> bool {
    let g = s0.tasks;
    &&& forall|t: TaskId| #[trigger]
        x.contains(t) ==> g.contains_key(t) && !transient(t) && g[t].unblocked() && (
        s0.pending.contains(t) || !parents(g, t).is_empty())
    &&& below_ancestors(g, x)
}

/// Whether a pass under way has collected, or still has a job for, every task of `x` whose parents are
/// gone.
pub open spec fn thorough(s0: PassState, s: PassState, x: Set<TaskId>) -> bool {
    let g = s0.tasks;
    let d = newly_deleted(g, s.tasks);
    forall|t: TaskId| #[trigger]
        x.contains(t) && parents(g, t).subset_of(d) ==> d.contains(t) || s.pending.contains(t)
}

/// A task all of whose parents are gone, which is not blocked, and whose uppers are ancestors, is
/// collectible.
proof fn lemma_exposed(
    s0: PassState,
    ran: Set<TaskId>,
    s: PassState,
    x: Set<TaskId>,
    t: TaskId,
)
    requires
        pass_inv(s0, ran, s),
        awaiting(s0, x),
        x.contains(t),
        parents(s0.tasks, t).subset_of(newly_deleted(s0.tasks, s.tasks)),
        !newly_deleted(s0.tasks, s.tasks).contains(t),
    ensures
        collectible(t, s.tasks[t]),
{
    let g = s0.tasks;
    let d = newly_deleted(g, s.tasks);
    lemma_pass_graph(s0, ran, s);
    assert(s.tasks.contains_key(t));
    assert(parents(s.tasks, t) =~= Set::empty());
    lemma_parentless(s.tasks, t);
    assert forall|u: TaskId| !s.tasks[t].uppers.contains(u) by {
        if s.tasks[t].uppers.contains(u) {
            assert(g[t].uppers.contains(u));
            lemma_ancestors_go(g, d, t, u);
        }
    }
}

/// A pass is thorough after any jobs.
pub proof fn lemma_thorough_run(mode: GcMode, s0: PassState, order: Seq<TaskId>, x: Set<TaskId>)
    requires
        pass_inv(s0, Set::empty(), s0),
        legal(mode, s0, order),
        awaiting(s0, x),
    ensures
        thorough(s0, run(mode, s0, order), x),
    decreases order.len(),
{
    broadcast use group_multiset_axioms;

    let g = s0.tasks;
    if order.len() == 0 {
        let none = newly_deleted(g, g);
        assert(none =~= Set::empty());
        assert forall|t: TaskId| #[trigger]
            x.contains(t) && parents(g, t).subset_of(none) implies parents(g, t).is_empty() by {
            if !parents(g, t).is_empty() {
                let p = choose|p: TaskId| parents(g, t).contains(p);
                assert(none.contains(p));
            }
        }
    } else {
        let before = order.drop_last();
        let t = order.last();
        let s = run(mode, s0, before);
        let n = run(mode, s0, order);
        let d = newly_deleted(g, s.tasks);
        let e = newly_deleted(g, n.tasks);
        lemma_thorough_run(mode, s0, before, x);
        lemma_run(mode, s0, before);
        lemma_step(mode, s0, before.to_set(), s, t);
        lemma_pass_graph(s0, before.to_set(), s);
        assert(s.pending.count(t) > 0);
        assert forall|y: TaskId| #[trigger]
            x.contains(y) && parents(g, y).subset_of(e) implies e.contains(y)
            || n.pending.contains(y) by {
            if !e.contains(y) {
                if parents(g, y).subset_of(d) {
                    lemma_exposed(s0, before.to_set(), s, x, y);
                    assert(s.pending.contains(y));
                    assert(y != t);
                } else {
                    assert(collectible(t, s.tasks[t]));
                    lemma_zeroed(mode, s0, before.to_set(), s, t);
                    assert(orphaned(g, e).contains(y)) by {
                        let p = choose|p: TaskId| parents(g, y).contains(p) && !d.contains(p);
                        assert(parents(g, y).contains(p));
                    }
                    assert(!orphaned(g, d).contains(y));
                    assert(zeroed(s.tasks, t).contains(y));
                    lemma_exposed(s0, before.to_set().insert(t), n, x, y);
                    lemma_from_set(spawned(s.tasks, t));
                    assert(spawned(s.tasks, t).contains(y));
                }
            }
        }
    }
}

/// Whether an incremental pass under way remembers every parentless task that it has met.
pub open spec fn remembered(s0: PassState, s: PassState) -> bool {
    &&& forall|c: TaskId| #[trigger]
        s.tasks.contains_key(c) && still_parentless(c, s.tasks[c]) ==> {
            ||| s.dead.contains(c)
            ||| s.pending.contains(c)
            ||| (parents(s0.tasks, c).is_empty() && !s0.pending.contains(c) && !s0.dead.contains(
                c,
            ))
        }
    &&& forall|c: TaskId| #[trigger]
        s.dead.contains(c) && !s0.dead.contains(c) ==> s.tasks[c].parent_count == 0
            && !s0.tasks[c].deleted && (s0.pending.contains(c) || !parents(s0.tasks, c).is_empty())
    &&& s.requeued >= s0.requeued
    &&& s.requeued == s0.requeued ==> s.dead == s0.dead
}

/// Every job of an incremental pass remembers the parentless tasks that it meets.
proof fn lemma_remembered_step(s0: PassState, ran: Set<TaskId>, s: PassState, t: TaskId)
    requires
        pass_inv(s0, ran, s),
        s.pending.contains(t),
        traced(s0, ran, s),
        remembered(s0, s),
    ensures
        remembered(s0, job_step(GcMode::Incremental, s, t)),
{
    broadcast use group_multiset_axioms;

    let mode = GcMode::Incremental;
    let g0 = s0.tasks;
    let n = job_step(mode, s, t);
    let g = s.tasks;
    lemma_step(mode, s0, ran, s, t);
    lemma_pass_graph(s0, ran, s);
    lemma_pass_graph(s0, ran.insert(t), n);
    assert(s.pending.count(t) > 0);
    if collectible(t, g[t]) {
        lemma_from_set(spawned(g, t));
        lemma_zeroed(mode, s0, ran, s, t);
    }
    assert forall|c: TaskId| #[trigger]
        n.tasks.contains_key(c) && still_parentless(c, n.tasks[c]) implies {
        ||| n.dead.contains(c)
        ||| n.pending.contains(c)
        ||| (parents(g0, c).is_empty() && !s0.pending.contains(c) && !s0.dead.contains(c))
    } by {
        assert(g.contains_key(c));
        lemma_parentless(g, c);
        lemma_parentless(n.tasks, c);
        if still_parentless(c, g[c]) {
        } else {
            assert(zeroed(g, t).contains(c)) by {
                let p = choose|p: TaskId| parents(g, c).contains(p);
                assert(!parents(n.tasks, c).contains(p));
            }
            if !spawned(g, t).contains(c) {
                assert(held_back(g, t).contains(c));
            }
        }
    }
    assert forall|c: TaskId| #[trigger]
        n.dead.contains(c) && !s0.dead.contains(c) implies n.tasks[c].parent_count == 0
        && !g0[c].deleted && (s0.pending.contains(c) || !parents(g0, c).is_empty()) by {
        assert(g.contains_key(c));
        if s.dead.contains(c) {
            lemma_parentless(g, c);
            lemma_parentless(n.tasks, c);
            assert(parents(n.tasks, c) =~= Set::empty());
        } else if held_back(g, t).contains(c) && collectible(t, g[t]) {
            assert(g[t].children == g0[t].children);
            assert(parents(g0, c).contains(t));
        } else {
            assert(c == t);
        }
    }
    if n.requeued == s0.requeued {
        if collectible(t, g[t]) {
            held_back(g, t).lemma_len0_is_empty();
            assert(n.dead =~= s.dead);
        }
    }
}

/// An incremental pass remembers, after any jobs, the parentless tasks that it has met.
pub proof fn lemma_remembered_run(s0: PassState, order: Seq<TaskId>)
    requires
        pass_inv(s0, Set::empty(), s0),
        legal(GcMode::Incremental, s0, order),
        forall|c: TaskId| #[trigger]
            s0.tasks.contains_key(c) && still_parentless(c, s0.tasks[c]) ==> s0.dead.contains(c)
                || s0.pending.contains(c) || (parents(s0.tasks, c).is_empty()
                && !s0.pending.contains(c) && !s0.dead.contains(c)),
    ensures
        remembered(s0, run(GcMode::Incremental, s0, order)),
    decreases order.len(),
{
    let mode = GcMode::Incremental;
    if order.len() > 0 {
        let before = order.drop_last();
        lemma_remembered_run(s0, before);
        lemma_run(mode, s0, before);
        lemma_traced_run(mode, s0, before);
        lemma_remembered_step(s0, before.to_set(), run(mode, s0, before), order.last());
    }
}

/// An incremental pass puts no task on the dead list that can be collected once its parents are.
pub proof fn lemma_requeues_blocked_run(s0: PassState, order: Seq<TaskId>, x: Set<TaskId>)
    requires
        pass_inv(s0, Set::empty(), s0),
        legal(GcMode::Incremental, s0, order),
        awaiting(s0, x),
        s0.dead.is_empty(),
    ensures
        forall|c: TaskId| #[trigger]
            run(GcMode::Incremental, s0, order).dead.contains(c) ==> !x.contains(c),
    decreases order.len(),
{
    let mode = GcMode::Incremental;
    if order.len() > 0 {
        let before = order.drop_last();
        let t = order.last();
        let s = run(mode, s0, before);
        let n = run(mode, s0, order);
        let ran = before.to_set();
        lemma_requeues_blocked_run(s0, before, x);
        lemma_run(mode, s0, before);
        lemma_step(mode, s0, ran, s, t);
        lemma_pass_graph(s0, ran, s);
        lemma_pass_graph(s0, ran.insert(t), n);
        assert(s.pending.count(t) > 0);
        assert forall|c: TaskId| #[trigger]
            n.dead.contains(c) implies !x.contains(c) by {
            if !s.dead.contains(c) && x.contains(c) {
                assert(n.tasks.contains_key(c));
                let d = newly_deleted(s0.tasks, n.tasks);
                if collectible(t, s.tasks[t]) {
                    assert(held_back(s.tasks, t).contains(c));
                    lemma_zeroed(mode, s0, ran, s, t);
                    assert(orphaned(s0.tasks, d).contains(c));
                    if d.contains(c) {
                        assert(n.tasks[c].deleted);
                        assert(s.tasks[c].deleted || c == t);
                        assert(parents(s.tasks, c).contains(t));
                        lemma_parentless(s.tasks, t);
                        assert(parents(s.tasks, c).is_empty());
                    }
                } else {
                    assert(c == t);
                    lemma_parentless(s.tasks, t);
                    assert(parents(s.tasks, t) == parents(s0.tasks, t).difference(d));
                    assert forall|p: TaskId| parents(s0.tasks, t).contains(p) implies d.contains(
                        p,
                    ) by {
                        assert(!parents(s.tasks, t).contains(p));
                    }
                }
                lemma_exposed(s0, ran.insert(t), n, x, c);
                assert(false);
            }
        }
    }
}

/// Whether every job of a pass under way is sure to collect its task, once.
pub open spec fn certain(s0: PassState, s: PassState) -> bool {
    &&& forall|t: TaskId| #[trigger]
        s.pending.count(t) > 0 ==> s.pending.count(t) == 1 && collectible(t, s.tasks[t])
    &&& s.requeued == s0.requeued
    &&& s.dropped_stale == s0.dropped_stale
    &&& s.dead == s0.dead
}

/// A scan-seeded pass is certain of its jobs after any of them.
pub proof fn lemma_certain_run(s0: PassState, order: Seq<TaskId>)
    requires
        pass_inv(s0, Set::empty(), s0),
        legal(GcMode::Scan, s0, order),
        certain(s0, s0),
    ensures
        certain(s0, run(GcMode::Scan, s0, order)),
    decreases order.len(),
{
    broadcast use group_multiset_axioms;

    let mode = GcMode::Scan;
    if order.len() > 0 {
        let before = order.drop_last();
        let t = order.last();
        let s = run(mode, s0, before);
        let n = run(mode, s0, order);
        lemma_certain_run(s0, before);
        lemma_run(mode, s0, before);
        lemma_step(mode, s0, before.to_set(), s, t);
        lemma_pass_graph(s0, before.to_set(), s);
        assert(s.pending.count(t) > 0);
        lemma_from_set(spawned(s.tasks, t));
        assert forall|x: TaskId| #[trigger] n.pending.count(x) > 0 implies n.pending.count(x) == 1
            && collectible(x, n.tasks[x]) by {
            if spawned(s.tasks, t).contains(x) {
                assert(parents(s.tasks, x).contains(t));
                lemma_parentless(s.tasks, x);
                assert(s.pending.count(x) == 0);
            } else {
                assert(x != t);
                lemma_stays_collectible(s.tasks, t, x);
            }
        }
    }
}

/// A pass none of whose jobs can collect collects nothing.
pub open spec fn idle(s0: PassState, s: PassState) -> bool {
    &&& newly_deleted(s0.tasks, s.tasks).is_empty()
    &&& forall|t: TaskId| #[trigger]
        s.pending.count(t) > 0 ==> s0.pending.count(t) > 0
}

/// A pass that cannot collect is idle after any jobs.
pub proof fn lemma_idle_run(mode: GcMode, s0: PassState, order: Seq<TaskId>)
    requires
        pass_inv(s0, Set::empty(), s0),
        legal(mode, s0, order),
        forall|t: TaskId| #[trigger]
            s0.pending.count(t) > 0 ==> !collectible(t, s0.tasks[t]),
    ensures
        idle(s0, run(mode, s0, order)),
    decreases order.len(),
{
    broadcast use group_multiset_axioms;

    if order.len() > 0 {
        let before = order.drop_last();
        let t = order.last();
        let s = run(mode, s0, before);
        lemma_idle_run(mode, s0, before);
        lemma_run(mode, s0, before);
        lemma_step(mode, s0, before.to_set(), s, t);
        lemma_pass_graph(s0, before.to_set(), s);
        assert(s.pending.count(t) > 0);
        assert(newly_deleted(s0.tasks, s.tasks) =~= Set::empty());
        assert(s.tasks.contains_key(t));
        lemma_parents_finite(s0.tasks, t);
        assert(parents(s0.tasks, t).difference(Set::empty()) =~= parents(s0.tasks, t));
        assert(s0.tasks[t].uppers.difference(Set::empty()) =~= s0.tasks[t].uppers);
        assert(!collectible(t, s.tasks[t]));
    }
}

/// A seed that is collectible is collected, sooner or later.
pub proof fn lemma_seeds_collected_run(mode: GcMode, s0: PassState, order: Seq<TaskId>, t: TaskId)
    requires
        pass_inv(s0, Set::empty(), s0),
        legal(mode, s0, order),
        s0.pending.contains(t),
        collectible(t, s0.tasks[t]),
    ensures
        ({
            let s = run(mode, s0, order);
            newly_deleted(s0.tasks, s.tasks).contains(t) || (s.pending.contains(t) && collectible(
                t,
                s.tasks[t],
            ))
        }),
    decreases order.len(),
{
    broadcast use group_multiset_axioms;

    if order.len() > 0 {
        let before = order.drop_last();
        let u = order.last();
        let s = run(mode, s0, before);
        lemma_seeds_collected_run(mode, s0, before, t);
        lemma_run(mode, s0, before);
        lemma_step(mode, s0, before.to_set(), s, u);
        lemma_pass_graph(s0, before.to_set(), s);
        assert(s.pending.count(u) > 0);
        assert(s.pending.contains(t) ==> s.pending.count(t) > 0);
        if !newly_deleted(s0.tasks, s.tasks).contains(t) && u != t && collectible(u, s.tasks[u]) {
            lemma_stays_collectible(s.tasks, u, t);
        }
    }
}

/// The first task that a pass collects has no parent.
proof fn lemma_first_collected(mode: GcMode, s0: PassState, order: Seq<TaskId>)
    requires
        pass_inv(s0, Set::empty(), s0),
        legal(mode, s0, order),
    ensures
        ({
            let d = newly_deleted(s0.tasks, run(mode, s0, order).tasks);
            d.is_empty() || exists|t: TaskId| #[trigger]
                d.contains(t) && parents(s0.tasks, t).is_empty()
        }),
    decreases order.len(),
{
    let g = s0.tasks;
    if order.len() == 0 {
        assert(newly_deleted(g, g) =~= Set::empty());
    } else {
        let before = order.drop_last();
        let t = order.last();
        let s = run(mode, s0, before);
        let d = newly_deleted(g, s.tasks);
        let e = newly_deleted(g, run(mode, s0, order).tasks);
        lemma_first_collected(mode, s0, before);
        lemma_run(mode, s0, before);
        lemma_step(mode, s0, before.to_set(), s, t);
        lemma_pass_graph(s0, before.to_set(), s);
        assert(s.pending.count(t) > 0);
        if d.is_empty() {
            if collectible(t, s.tasks[t]) {
                lemma_parentless(s.tasks, t);
                assert(parents(s.tasks, t) =~= parents(g, t));
                assert(e.contains(t));
            } else {
                assert(e.is_empty());
            }
        } else {
            let u = choose|u: TaskId| #[trigger] d.contains(u) && parents(g, u).is_empty();
            assert(e.contains(u));
        }
    }
}

/// There are not so many tasks that a pass could count too far.
pub proof fn lemma_counts_fit(mode: GcMode, g: Graph, dead: Set<TaskId>, order: Seq<TaskId>)
    requires
        graph_wf(g),
        dead_wf(g, dead),
        legal(mode, start(mode, g, dead), order),
    ensures
        met(run(mode, start(mode, g, dead), order)) <= u32::MAX,
        seeds(mode, g, dead).len() <= u32::MAX,
{
    let s0 = start(mode, g, dead);
    let d = newly_deleted(g, run(mode, s0, order).tasks);
    let out = orphaned(g, d);
    lemma_start(mode, g, dead);
    lemma_accounts_run(mode, s0, order);
    lemma_first_collected(mode, s0, order);
    lemma_run(mode, s0, order);
    lemma_persistent_bound(seeds(mode, g, dead));
    assert forall|c: TaskId| #[trigger] out.contains(c) implies !transient(c) by {
        let p = choose|p: TaskId| parents(g, c).contains(p);
        assert(g[p].children.contains(c));
    }
    if d.is_empty() {
        assert(out =~= Set::empty()) by {
            assert forall|c: TaskId| !out.contains(c) by {
                if out.contains(c) {
                    let p = choose|p: TaskId| parents(g, c).contains(p);
                    assert(d.contains(p));
                }
            }
        }
    } else {
        let t = choose|t: TaskId| #[trigger] d.contains(t) && parents(g, t).is_empty();
        assert(!out.contains(t));
        lemma_persistent_bound(out.insert(t));
        lemma_persistent_bound(out);
    }
}

/// Every job has at least one outcome.
pub proof fn lemma_jobs_counted(mode: GcMode, s0: PassState, order: Seq<TaskId>)
    requires
        pass_inv(s0, Set::empty(), s0),
        legal(mode, s0, order),
    ensures
        ({
            let s = run(mode, s0, order);
            order.len() + s0.collected + s0.requeued + s0.dropped_stale <= s.collected + s.requeued
                + s.dropped_stale
        }),
    decreases order.len(),
{
    if order.len() > 0 {
        lemma_jobs_counted(mode, s0, order.drop_last());
    }
}

/// A pool that can run its jobs in an order can run them in each part of it.
pub proof fn lemma_legal_prefix(mode: GcMode, s0: PassState, order: Seq<TaskId>, k: int)
    requires
        legal(mode, s0, order),
        0 <= k <= order.len(),
    ensures
        legal(mode, s0, order.take(k)),
        k < order.len() ==> run(mode, s0, order.take(k)).pending.contains(order[k]),
    decreases order.len(),
{
    if k == order.len() {
        assert(order.take(k) =~= order);
    } else if k == order.len() - 1 {
        assert(order.take(k) =~= order.drop_last());
    } else {
        lemma_legal_prefix(mode, s0, order.drop_last(), k);
        assert(order.drop_last().take(k) =~= order.take(k));
    }
}

/// Whether a pass under way has dropped as many candidates as it has run stale ones, each seed is run
/// once, and every other job is sure to collect its task.
pub open spec fn tallied(s0: PassState, ran: Set<TaskId>, s: PassState, stale: Set<TaskId>) -> bool {
    &&& s.dropped_stale == s0.dropped_stale + stale.intersect(ran).len()
    &&& forall|t: TaskId| #[trigger]
        s0.pending.count(t) > 0 ==> s.pending.count(t) == if ran.contains(t) {
            0nat
        } else {
            1
        }
    &&& forall|t: TaskId| #[trigger]
        s.pending.count(t) > 0 && s0.pending.count(t) == 0 ==> s.pending.count(t) == 1 && collectible(
            t,
            s.tasks[t],
        )
}

/// Where each seed that has parents keeps one, a pass drops the seeds that have parents, or are deleted,
/// and no others.
pub proof fn lemma_tallied_run(
    mode: GcMode,
    s0: PassState,
    order: Seq<TaskId>,
    lost: Set<TaskId>,
    stale: Set<TaskId>,
)
    requires
        pass_inv(s0, Set::empty(), s0),
        legal(mode, s0, order),
        forall|t: TaskId| #[trigger] s0.pending.count(t) > 0 ==> s0.pending.count(t) == 1,
        newly_deleted(s0.tasks, run(mode, s0, order).tasks).subset_of(lost),
        forall|t: TaskId| #[trigger]
            s0.pending.count(t) > 0 && !parents(s0.tasks, t).is_empty() ==> exists|p: TaskId|
                parents(s0.tasks, t).contains(p) && !lost.contains(p),
        stale.finite(),
        forall|t: TaskId| #[trigger]
            stale.contains(t) <==> s0.pending.count(t) > 0 && !still_parentless(t, s0.tasks[t]),
    ensures
        tallied(s0, order.to_set(), run(mode, s0, order), stale),
    decreases order.len(),
{
    broadcast use group_multiset_axioms;

    let g = s0.tasks;
    if order.len() == 0 {
        assert(order.to_set() =~= Set::empty());
        assert(stale.intersect(order.to_set()) =~= Set::empty());
    } else {
        let before = order.drop_last();
        let t = order.last();
        let s = run(mode, s0, before);
        let n = run(mode, s0, order);
        let ran = before.to_set();
        let d = newly_deleted(g, s.tasks);
        lemma_run(mode, s0, before);
        lemma_step(mode, s0, ran, s, t);
        lemma_tallied_run(mode, s0, before, lost, stale);
        lemma_traced_run(mode, s0, before);
        lemma_pass_graph(s0, ran, s);
        assert(order =~= before.push(t));
        lemma_push_set(before, t);
        assert(s.pending.count(t) > 0);
        assert(s.tasks.contains_key(t));
        lemma_from_set(spawned(s.tasks, t));
        // A seed is never spawned: it has no parent, or keeps one.
        assert forall|x: TaskId| collectible(t, s.tasks[t]) && #[trigger] spawned(
            s.tasks,
            t,
        ).contains(x) implies s0.pending.count(x) == 0 && s.pending.count(x) == 0 by {
            lemma_zeroed(mode, s0, ran, s, t);
            assert(orphaned(g, d.insert(t)).contains(x));
            if s0.pending.count(x) > 0 {
                let p = choose|p: TaskId| parents(g, x).contains(p) && !lost.contains(p);
                assert(d.insert(t).contains(p));
            }
            if s.pending.count(x) > 0 {
                assert(parents(s.tasks, x).contains(t));
                lemma_parentless(s.tasks, x);
            }
        }
        if s0.pending.count(t) > 0 {
            assert(!ran.contains(t));
            lemma_parentless(g, t);
            lemma_parentless(s.tasks, t);
            assert(parents(s.tasks, t) == parents(g, t).difference(d));
            assert(!d.contains(t));
            if stale.contains(t) {
                if !parents(g, t).is_empty() {
                    let p = choose|p: TaskId| parents(g, t).contains(p) && !lost.contains(p);
                    assert(d.subset_of(lost));
                    assert(parents(s.tasks, t).contains(p));
                }
                assert(!still_parentless(t, s.tasks[t]));
                assert(stale.intersect(ran.insert(t)) =~= stale.intersect(ran).insert(t));
            } else {
                assert(still_parentless(t, s.tasks[t]));
                assert(stale.intersect(ran.insert(t)) =~= stale.intersect(ran));
            }
        } else {
            assert(collectible(t, s.tasks[t]));
            assert(stale.intersect(ran.insert(t)) =~= stale.intersect(ran));
        }
        assert forall|x: TaskId| #[trigger]
            n.pending.count(x) > 0 && s0.pending.count(x) == 0 implies n.pending.count(x) == 1
            && collectible(x, n.tasks[x]) by {
            if x != t && s.pending.count(x) > 0 && collectible(t, s.tasks[t]) {
                lemma_stays_collectible(s.tasks, t, x);
            }
        }
    }
}

/// Each entry that an incremental pass puts on the dead list is counted.
pub proof fn lemma_entries_counted_run(s0: PassState, order: Seq<TaskId>)
    requires
        pass_inv(s0, Set::empty(), s0),
        legal(GcMode::Incremental, s0, order),
        s0.dead.is_empty(),
    ensures
        ({
            let s = run(GcMode::Incremental, s0, order);
            s.dead.finite() && s0.requeued + s.dead.len() <= s.requeued
        }),
    decreases order.len(),
{
    let mode = GcMode::Incremental;
    if order.len() == 0 {
        assert(s0.dead =~= Set::empty());
    } else {
        let before = order.drop_last();
        let s = run(mode, s0, before);
        lemma_entries_counted_run(s0, before);
        lemma_run(mode, s0, before);
        lemma_step(mode, s0, before.to_set(), s, order.last());
        lemma_len_union(s.dead, held_back(s.tasks, order.last()));
    }
}

} // verus!
