//! Laws of collection passes. Each holds of every order in which the pool may run its jobs.
use vstd::prelude::*;
use crate::edit::{aggregated, linked, pinned, recorded, unlinked, unpinned, with_task};
use crate::graph::{graph_wf, lemma_parentless, parents, torn_down, transient_parents, Graph};
use crate::mode::GcMode;
use crate::outcome::{
    ancestor, awaiting, below_ancestors, closed_under_collection, condemned,
    condemned_below_ancestors, descent, lemma_accounts_run, lemma_ancestor_stays, lemma_certain_run,
    lemma_condemned, lemma_idle_run, lemma_jobs_counted, lemma_legal_prefix, lemma_path_goes,
    lemma_remembered_run, lemma_requeues_blocked_run, lemma_seeds_collected_run, lemma_sound_run,
    lemma_thorough_run, lemma_traced_run, lemma_uppers_stay_ancestors, orphaned,
    uppers_are_ancestors,
};
use crate::pass::{
    dead_wf, legal, lemma_pass_graph, lemma_run, lemma_start, lemma_torn_nothing, newly_deleted,
    opened, run, scan_seeds, schedule, seeds, start,
};
use crate::task::{collectible, still_parentless, transient, Residency, TaskId, TaskModel};
use crate::teardown::unhooked;

verus! {

/// A pass changes the graph by the teardown of the tasks that it collects, and by nothing else but
/// that its seeds are brought into memory. It counts what it collects, once each, and keeps the
/// graph and the dead list well-formed.
pub proof fn law_pass_effect(mode: GcMode, g: Graph, dead: Set<TaskId>, order: Seq<TaskId>)
    requires
        graph_wf(g),
        dead_wf(g, dead),
        schedule(mode, start(mode, g, dead), order),
    ensures
        ({
            let end = run(mode, start(mode, g, dead), order);
            let d = newly_deleted(g, end.tasks);
            &&& end.tasks == opened(torn_down(g, d), seeds(mode, g, dead))
            &&& d.finite()
            &&& end.collected == d.len()
            &&& graph_wf(end.tasks)
            &&& dead_wf(end.tasks, end.dead)
        }),
{
    broadcast use vstd::multiset::group_multiset_axioms;

    let s0 = start(mode, g, dead);
    let end = run(mode, s0, order);
    let d = newly_deleted(g, end.tasks);
    let from = seeds(mode, g, dead);
    lemma_start(mode, g, dead);
    lemma_run(mode, s0, order);
    lemma_traced_run(mode, s0, order);
    lemma_pass_graph(s0, order.to_set(), end);
    assert(end.pending =~= vstd::multiset::Multiset::empty());
    let torn = torn_down(g, d);
    assert forall|x: TaskId| g.contains_key(x) implies opened(torn, order.to_set())[x] == opened(
        torn,
        from,
    )[x] by {
        assert(s0.pending.contains(x) == from.contains(x)) by {
            assert(s0.pending.count(x) == if from.contains(x) { 1nat } else { 0 });
        }
        assert(torn[x].residency == Residency::Restored || !d.contains(x));
        if order.to_set().contains(x) != from.contains(x) {
            assert(d.contains(x));
            assert(TaskModel { residency: Residency::Restored, ..torn[x] } =~= torn[x]);
        }
    }
    assert(end.tasks =~= opened(torn, from));
}

/// Only garbage is collected. What a pass collects is persistent, not pinned, not active, not in
/// progress and not collected before; nothing outside the collected tasks has one of them as a child
/// or is one's upper.
pub proof fn law_only_garbage_is_collected(
    mode: GcMode,
    g: Graph,
    dead: Set<TaskId>,
    order: Seq<TaskId>,
    t: TaskId,
)
    requires
        graph_wf(g),
        dead_wf(g, dead),
        schedule(mode, start(mode, g, dead), order),
        newly_deleted(g, run(mode, start(mode, g, dead), order).tasks).contains(t),
    ensures
        g.contains_key(t),
        !transient(t),
        g[t].unblocked(),
        transient_parents(g, t).is_empty(),
        parents(g, t).subset_of(newly_deleted(g, run(mode, start(mode, g, dead), order).tasks)),
        g[t].uppers.subset_of(newly_deleted(g, run(mode, start(mode, g, dead), order).tasks)),
{
    lemma_start(mode, g, dead);
    lemma_run(mode, start(mode, g, dead), order);
}

/// A chain of parent-child edges, from transient tasks too.
pub open spec fn child_path(g: Graph, path: Seq<TaskId>) -> bool {
    &&& path.len() >= 1
    &&& forall|i: int|
        #![trigger path[i]]
        0 <= i < path.len() - 1 ==> g.contains_key(path[i]) && g[path[i]].children.contains(
            path[i + 1],
        )
}

/// What a surviving task can reach over child edges survives.
pub proof fn law_reachable_tasks_survive(
    mode: GcMode,
    g: Graph,
    dead: Set<TaskId>,
    order: Seq<TaskId>,
    path: Seq<TaskId>,
)
    requires
        graph_wf(g),
        dead_wf(g, dead),
        schedule(mode, start(mode, g, dead), order),
        child_path(g, path),
        !newly_deleted(g, run(mode, start(mode, g, dead), order).tasks).contains(path[0]),
    ensures
        !newly_deleted(g, run(mode, start(mode, g, dead), order).tasks).contains(path.last()),
    decreases path.len(),
{
    let d = newly_deleted(g, run(mode, start(mode, g, dead), order).tasks);
    if path.len() > 1 {
        let shorter = path.drop_last();
        assert(child_path(g, shorter)) by {
            assert forall|i: int|
                #![trigger shorter[i]]
                0 <= i < shorter.len() - 1 implies g.contains_key(shorter[i])
                && g[shorter[i]].children.contains(shorter[i + 1]) by {
                assert(shorter[i] == path[i]);
            }
        }
        law_reachable_tasks_survive(mode, g, dead, order, shorter);
        let p = path[path.len() - 2];
        assert(shorter.last() == p);
        let c = path.last();
        assert(g[p].children.contains(path[path.len() - 2 + 1]));
        if d.contains(c) {
            law_only_garbage_is_collected(mode, g, dead, order, c);
            if transient(p) {
                assert(transient_parents(g, c).contains(p));
            } else {
                assert(parents(g, c).contains(p));
            }
        }
    }
}

/// No edge is left that leads to or from a collected task: a task that was not collected has no
/// collected child, upper, follower or dependent.
pub proof fn law_no_edge_is_left(g: Graph, x: TaskId, y: TaskId)
    requires
        graph_wf(g),
        g.contains_key(x),
        g.contains_key(y),
        g[y].deleted,
    ensures
        !g[x].children.contains(y),
        !g[x].uppers.contains(y),
        !g[x].followers.contains(y),
        forall|dep: crate::task::Dependent| #[trigger]
            g[x].dependents.contains(dep) ==> dep.task != y,
{
    if g[x].children.contains(y) {
        if transient(x) {
            assert(transient_parents(g, y).contains(x));
        } else {
            assert(parents(g, y).contains(x));
        }
    }
    assert forall|dep: crate::task::Dependent| #[trigger]
        g[x].dependents.contains(dep) implies dep.task != y by {
        assert(g[dep.task].dependencies.contains(dep.edge));
    }
}

/// A pass collects nothing but the garbage that hangs on its seeds, and, where each upper of such a task
/// is an ancestor of the task, all of it, whatever the rest of the graph is like.
pub proof fn law_collects_the_condemned(
    mode: GcMode,
    g: Graph,
    dead: Set<TaskId>,
    order: Seq<TaskId>,
)
    requires
        graph_wf(g),
        dead_wf(g, dead),
        schedule(mode, start(mode, g, dead), order),
    ensures
        ({
            let d = newly_deleted(g, run(mode, start(mode, g, dead), order).tasks);
            let doomed = condemned(g, seeds(mode, g, dead));
            &&& d.subset_of(doomed)
            &&& condemned_below_ancestors(g, seeds(mode, g, dead)) ==> d == doomed
        }),
{
    broadcast use vstd::multiset::group_multiset_axioms;

    let s0 = start(mode, g, dead);
    let end = run(mode, s0, order);
    let d = newly_deleted(g, end.tasks);
    let from = seeds(mode, g, dead);
    lemma_start(mode, g, dead);
    assert(s0.pending.dom() =~= from) by {
        assert forall|x: TaskId| s0.pending.dom().contains(x) == from.contains(x) by {
            assert(s0.pending.count(x) == if from.contains(x) { 1nat } else { 0 });
        }
    }
    assert forall|t: TaskId| d.contains(t) implies condemned(g, from).contains(t) by {
        assert forall|x: Set<TaskId>| #[trigger]
            closed_under_collection(g, from, x) implies x.contains(t) by {
            lemma_sound_run(mode, s0, order, x);
        }
    }
    if condemned_below_ancestors(g, from) {
        let doomed = condemned(g, from);
        lemma_condemned(g, from);
        lemma_awaiting(mode, g, dead);
        lemma_thorough_run(mode, s0, order, doomed);
        assert(closed_under_collection(g, from, d)) by {
            assert forall|t: TaskId| #[trigger]
                g.contains_key(t) && !transient(t) && g[t].unblocked() && (from.contains(t)
                    || !parents(g, t).is_empty()) && parents(g, t).subset_of(d)
                    && g[t].uppers.subset_of(d) implies d.contains(t) by {
                assert(parents(g, t).subset_of(doomed));
                assert(g[t].uppers.subset_of(doomed));
                assert(doomed.contains(t));
                assert(!end.pending.contains(t));
            }
        }
        assert(d =~= doomed);
    }
}

/// What is condemned, and below ancestors only, can be collected once its parents are.
proof fn lemma_awaiting(mode: GcMode, g: Graph, dead: Set<TaskId>)
    requires
        graph_wf(g),
        dead_wf(g, dead),
        condemned_below_ancestors(g, seeds(mode, g, dead)),
    ensures
        awaiting(start(mode, g, dead), condemned(g, seeds(mode, g, dead))),
{
    let s0 = start(mode, g, dead);
    let from = seeds(mode, g, dead);
    lemma_condemned(g, from);
    lemma_start(mode, g, dead);
    assert forall|t: TaskId| #[trigger] condemned(g, from).contains(t) implies g.contains_key(t)
        && !transient(t) && g[t].unblocked() && (s0.pending.contains(t) || !parents(
        g,
        t,
    ).is_empty()) by {
        assert(s0.pending.count(t) == if from.contains(t) { 1nat } else { 0 });
    }
}

/// Where each persistent upper of a task is an ancestor of the task, this is so of all uppers of what
/// any seeds condemn: a condemned task has no transient upper.
pub proof fn law_condemned_are_below_ancestors(g: Graph, from: Set<TaskId>)
    requires
        uppers_are_ancestors(g),
    ensures
        condemned_below_ancestors(g, from),
{
    lemma_condemned(g, from);
    let doomed = condemned(g, from);
    assert forall|c: TaskId, u: TaskId| #[trigger]
        g[c].uppers.contains(u) && doomed.contains(c) implies ancestor(g, u, c) by {
        assert(doomed.contains(u));
    }
}

/// Whether `sub` is cut off, to a pass of the given mode: each parent of one of its tasks is in it, with
/// a lower rank (there is no cycle), the tasks without a parent are seeds, none is blocked, and each
/// upper of one is an ancestor of it. Of the rest of the graph nothing is asked.
pub open spec fn cut_off(
    mode: GcMode,
    g: Graph,
    dead: Set<TaskId>,
    sub: Set<TaskId>,
    rank: spec_fn(TaskId) -> nat,
) -> bool {
    &&& forall|t: TaskId| #[trigger]
        sub.contains(t) ==> g.contains_key(t) && !transient(t) && g[t].unblocked() && (seeds(
            mode,
            g,
            dead,
        ).contains(t) || !parents(g, t).is_empty())
    &&& forall|p: TaskId, c: TaskId| #[trigger]
        parents(g, c).contains(p) && sub.contains(c) ==> sub.contains(p) && rank(p) < rank(c)
    &&& below_ancestors(g, sub)
}

/// A subtree that is cut off is collected whole, and counted: one pass collects all its tasks, and only
/// them if nothing else hangs on the seeds.
pub proof fn law_cut_off_subtree_is_collected(
    mode: GcMode,
    g: Graph,
    dead: Set<TaskId>,
    order: Seq<TaskId>,
    sub: Set<TaskId>,
    rank: spec_fn(TaskId) -> nat,
)
    requires
        graph_wf(g),
        dead_wf(g, dead),
        schedule(mode, start(mode, g, dead), order),
        cut_off(mode, g, dead, sub, rank),
    ensures
        sub.subset_of(newly_deleted(g, run(mode, start(mode, g, dead), order).tasks)),
        run(mode, start(mode, g, dead), order).collected >= sub.len(),
        closed_under_collection(g, seeds(mode, g, dead), sub) ==> run(
            mode,
            start(mode, g, dead),
            order,
        ).collected == sub.len(),
{
    let d = newly_deleted(g, run(mode, start(mode, g, dead), order).tasks);
    assert forall|t: TaskId| sub.contains(t) implies d.contains(t) by {
        lemma_cut_off_task(mode, g, dead, order, sub, rank, t);
    }
    law_pass_effect(mode, g, dead, order);
    vstd::set_lib::lemma_len_subset(sub, d);
    if closed_under_collection(g, seeds(mode, g, dead), sub) {
        law_collects_the_condemned(mode, g, dead, order);
        assert(d =~= sub);
    }
}

/// Every task of a cut-off subtree is collected, after its parents.
proof fn lemma_cut_off_task(
    mode: GcMode,
    g: Graph,
    dead: Set<TaskId>,
    order: Seq<TaskId>,
    sub: Set<TaskId>,
    rank: spec_fn(TaskId) -> nat,
    t: TaskId,
)
    requires
        graph_wf(g),
        dead_wf(g, dead),
        schedule(mode, start(mode, g, dead), order),
        cut_off(mode, g, dead, sub, rank),
        sub.contains(t),
    ensures
        newly_deleted(g, run(mode, start(mode, g, dead), order).tasks).contains(t),
    decreases rank(t),
{
    broadcast use vstd::multiset::group_multiset_axioms;

    let s0 = start(mode, g, dead);
    let end = run(mode, s0, order);
    let d = newly_deleted(g, end.tasks);
    assert forall|p: TaskId| parents(g, t).contains(p) implies d.contains(p) by {
        lemma_cut_off_task(mode, g, dead, order, sub, rank, p);
    }
    lemma_start(mode, g, dead);
    assert(awaiting(s0, sub)) by {
        assert forall|x: TaskId| #[trigger] sub.contains(x) implies g.contains_key(x)
            && !transient(x) && g[x].unblocked() && (s0.pending.contains(x) || !parents(
            g,
            x,
        ).is_empty()) by {
            assert(s0.pending.count(x) == if seeds(mode, g, dead).contains(x) { 1nat } else { 0 });
        }
    }
    lemma_thorough_run(mode, s0, order, sub);
    assert(!end.pending.contains(t));
}

/// Whether `chain` hangs on nothing but its head, which is a seed without a parent: each further link
/// has the link before it as its only parent, none is blocked, and none has an upper but links above it.
pub open spec fn loose_chain(
    mode: GcMode,
    g: Graph,
    dead: Set<TaskId>,
    chain: Seq<TaskId>,
) -> bool {
    &&& chain.len() >= 1
    &&& chain.no_duplicates()
    &&& seeds(mode, g, dead).contains(chain[0])
    &&& parents(g, chain[0]).is_empty()
    &&& forall|i: int|
        #![trigger chain[i]]
        0 <= i < chain.len() ==> g.contains_key(chain[i]) && !transient(chain[i])
            && g[chain[i]].unblocked() && (i > 0 ==> parents(g, chain[i]) == set![chain[i - 1]])
            && (forall|u: TaskId| #[trigger]
            g[chain[i]].uppers.contains(u) ==> chain.take(i).contains(u))
}

/// A chain whose head is cut off is cut off as a whole, however deep it is: its head is the only seed
/// that it takes.
pub proof fn law_loose_chain_is_cut_off(
    mode: GcMode,
    g: Graph,
    dead: Set<TaskId>,
    chain: Seq<TaskId>,
)
    requires
        loose_chain(mode, g, dead, chain),
    ensures
        cut_off(
            mode,
            g,
            dead,
            chain.to_set(),
            |t: TaskId| chain.index_of(t) as nat,
        ),
        chain.to_set().len() == chain.len(),
{
    let rank = |t: TaskId| chain.index_of(t) as nat;
    let sub = chain.to_set();
    chain.unique_seq_to_set();
    assert forall|i: int| 0 <= i < chain.len() implies chain.index_of(#[trigger] chain[i]) == i by {
        assert(chain.contains(chain[i]));
        let k = chain.index_of(chain[i]);
        assert(chain[k] == chain[i]);
    }
    assert forall|t: TaskId| #[trigger] sub.contains(t) implies g.contains_key(t) && !transient(t)
        && g[t].unblocked() && (seeds(mode, g, dead).contains(t) || !parents(g, t).is_empty()) by {
        let i = choose|i: int| 0 <= i < chain.len() && chain[i] == t;
        if i > 0 {
            assert(parents(g, t).contains(chain[i - 1]));
        }
    }
    assert forall|p: TaskId, c: TaskId| #[trigger]
        parents(g, c).contains(p) && sub.contains(c) implies sub.contains(p) && rank(p) < rank(
        c,
    ) by {
        let i = choose|i: int| 0 <= i < chain.len() && chain[i] == c;
        assert(i > 0);
        assert(p == chain[i - 1]);
        assert(chain.contains(p));
    }
    assert forall|c: TaskId, u: TaskId| #[trigger]
        g[c].uppers.contains(u) && sub.contains(c) implies ancestor(g, u, c) by {
        let i = choose|i: int| 0 <= i < chain.len() && chain[i] == c;
        assert(chain.take(i).contains(u));
        let j = choose|j: int| 0 <= j < i && chain.take(i)[j] == u;
        let path = chain.subrange(j, i + 1);
        assert(descent(g, path)) by {
            assert forall|k: int|
                #![trigger path[k]]
                0 <= k < path.len() - 1 implies parents(g, path[k + 1]).contains(path[k]) by {
                assert(chain[j + k + 1] == path[k + 1]);
                assert(parents(g, chain[j + k + 1]) == set![chain[j + k]]);
            }
        }
        assert(path[0] == u && path.last() == c);
    }
}

/// Where each upper of a condemned task is an ancestor of the task, the order in which the jobs run does
/// not matter: the graph, the dead list and the number of tasks collected come out the same.
pub proof fn law_order_does_not_matter(
    mode: GcMode,
    g: Graph,
    dead: Set<TaskId>,
    order1: Seq<TaskId>,
    order2: Seq<TaskId>,
)
    requires
        graph_wf(g),
        dead_wf(g, dead),
        schedule(mode, start(mode, g, dead), order1),
        schedule(mode, start(mode, g, dead), order2),
        condemned_below_ancestors(g, seeds(mode, g, dead)),
    ensures
        run(mode, start(mode, g, dead), order1).tasks == run(
            mode,
            start(mode, g, dead),
            order2,
        ).tasks,
        run(mode, start(mode, g, dead), order1).dead == run(
            mode,
            start(mode, g, dead),
            order2,
        ).dead,
        run(mode, start(mode, g, dead), order1).collected == run(
            mode,
            start(mode, g, dead),
            order2,
        ).collected,
{
    law_pass_effect(mode, g, dead, order1);
    law_pass_effect(mode, g, dead, order2);
    law_collects_the_condemned(mode, g, dead, order1);
    law_collects_the_condemned(mode, g, dead, order2);
    let end1 = run(mode, start(mode, g, dead), order1);
    let end2 = run(mode, start(mode, g, dead), order2);
    assert(end1.tasks == end2.tasks);
    if mode == GcMode::Incremental {
        assert forall|c: TaskId| end1.dead.contains(c) == end2.dead.contains(c) by {
            lemma_dead_list_after(g, dead, order1, c);
            lemma_dead_list_after(g, dead, order2, c);
        }
        assert(end1.dead =~= end2.dead);
    } else {
        law_scan_is_never_stale(g, dead, order1);
        law_scan_is_never_stale(g, dead, order2);
    }
}

/// The dead list that an incremental pass leaves, where what is condemned is below ancestors only.
proof fn lemma_dead_list_after(g: Graph, dead: Set<TaskId>, order: Seq<TaskId>, c: TaskId)
    requires
        graph_wf(g),
        dead_wf(g, dead),
        schedule(GcMode::Incremental, start(GcMode::Incremental, g, dead), order),
        condemned_below_ancestors(g, dead),
    ensures
        ({
            let end = run(GcMode::Incremental, start(GcMode::Incremental, g, dead), order);
            end.dead.contains(c) == (g.contains_key(c) && still_parentless(c, end.tasks[c]) && (
            dead.contains(c) || !parents(g, c).is_empty()))
        }),
{
    broadcast use vstd::multiset::group_multiset_axioms;

    let mode = GcMode::Incremental;
    let s0 = start(mode, g, dead);
    let end = run(mode, s0, order);
    lemma_start(mode, g, dead);
    lemma_run(mode, s0, order);
    lemma_pass_graph(s0, order.to_set(), end);
    lemma_incremental_start(g, dead);
    lemma_remembered_run(s0, order);
    lemma_awaiting(mode, g, dead);
    lemma_requeues_blocked_run(s0, order, condemned(g, dead));
    law_collects_the_condemned(mode, g, dead, order);
    assert(s0.pending.count(c) == if dead.contains(c) { 1nat } else { 0 });
    assert(!end.pending.contains(c));
    if end.dead.contains(c) {
        assert(end.tasks.contains_key(c));
        assert(!newly_deleted(g, end.tasks).contains(c));
    }
}

/// At the start of an incremental pass every parentless task is a seed, or unknown to it.
proof fn lemma_incremental_start(g: Graph, dead: Set<TaskId>)
    requires
        graph_wf(g),
        dead_wf(g, dead),
    ensures
        ({
            let s0 = start(GcMode::Incremental, g, dead);
            forall|c: TaskId| #[trigger]
                s0.tasks.contains_key(c) && still_parentless(c, s0.tasks[c]) ==> s0.dead.contains(c)
                    || s0.pending.contains(c) || (parents(s0.tasks, c).is_empty()
                    && !s0.pending.contains(c) && !s0.dead.contains(c))
        }),
{
    let s0 = start(GcMode::Incremental, g, dead);
    assert forall|c: TaskId| #[trigger]
        s0.tasks.contains_key(c) && still_parentless(c, s0.tasks[c]) implies s0.dead.contains(c)
        || s0.pending.contains(c) || (parents(s0.tasks, c).is_empty() && !s0.pending.contains(c)
        && !s0.dead.contains(c)) by {
        lemma_parentless(g, c);
    }
}

/// A scan is never stale: every job of a scan-seeded pass finds its task collectible. So such a pass
/// requeues nothing, drops nothing, and leaves the dead list alone.
pub proof fn law_scan_is_never_stale(g: Graph, dead: Set<TaskId>, order: Seq<TaskId>)
    requires
        graph_wf(g),
        dead_wf(g, dead),
        schedule(GcMode::Scan, start(GcMode::Scan, g, dead), order),
    ensures
        ({
            let s0 = start(GcMode::Scan, g, dead);
            let end = run(GcMode::Scan, s0, order);
            &&& end.requeued == 0
            &&& end.dropped_stale == 0
            &&& end.dead == dead
            &&& forall|k: int|
                #![trigger order[k]]
                0 <= k < order.len() ==> collectible(
                    order[k],
                    run(GcMode::Scan, s0, order.take(k)).tasks[order[k]],
                )
        }),
{
    let mode = GcMode::Scan;
    let s0 = start(mode, g, dead);
    lemma_start(mode, g, dead);
    lemma_certain_run(s0, order);
    assert forall|k: int|
        #![trigger order[k]]
        0 <= k < order.len() implies collectible(
        order[k],
        run(mode, s0, order.take(k)).tasks[order[k]],
    ) by {
        lemma_legal_prefix(mode, s0, order, k);
        lemma_certain_run(s0, order.take(k));
        let s = run(mode, s0, order.take(k));
        assert(s.pending.count(order[k]) > 0);
    }
}

/// Scan and dead list find the same garbage. Where every collectible task is in memory, where a scan
/// sees it, and on the dead list of the incremental pass, and each upper of a condemned task is an
/// ancestor of it, both kinds of pass collect the same tasks, whatever dead list stands beside the scan.
/// If the whole dead list is in memory, they also leave the same graph behind.
pub proof fn law_modes_agree(
    g: Graph,
    scan_dead: Set<TaskId>,
    dead: Set<TaskId>,
    scan_order: Seq<TaskId>,
    incremental_order: Seq<TaskId>,
)
    requires
        graph_wf(g),
        dead_wf(g, scan_dead),
        dead_wf(g, dead),
        condemned_below_ancestors(g, dead),
        all_garbage_known(g, dead),
        schedule(GcMode::Scan, start(GcMode::Scan, g, scan_dead), scan_order),
        schedule(GcMode::Incremental, start(GcMode::Incremental, g, dead), incremental_order),
    ensures
        ({
            let scan = run(GcMode::Scan, start(GcMode::Scan, g, scan_dead), scan_order);
            let incremental = run(
                GcMode::Incremental,
                start(GcMode::Incremental, g, dead),
                incremental_order,
            );
            &&& newly_deleted(g, scan.tasks) == newly_deleted(g, incremental.tasks)
            &&& scan.collected == incremental.collected
            &&& (forall|t: TaskId| #[trigger]
                dead.contains(t) ==> g[t].residency == Residency::Restored) ==> scan.tasks
                == incremental.tasks
        }),
{
    let from1 = seeds(GcMode::Scan, g, scan_dead);
    let from2 = seeds(GcMode::Incremental, g, dead);
    lemma_same_condemned(g, dead);
    law_collects_the_condemned(GcMode::Scan, g, scan_dead, scan_order);
    law_collects_the_condemned(GcMode::Incremental, g, dead, incremental_order);
    law_pass_effect(GcMode::Scan, g, scan_dead, scan_order);
    law_pass_effect(GcMode::Incremental, g, dead, incremental_order);
    if forall|t: TaskId| #[trigger]
        dead.contains(t) ==> g[t].residency == Residency::Restored {
        let d = condemned(g, from1);
        let torn = torn_down(g, d);
        assert forall|x: TaskId| g.contains_key(x) implies opened(torn, from1)[x] == opened(
            torn,
            from2,
        )[x] by {
            if g[x].residency == Residency::Restored {
                assert(TaskModel { residency: Residency::Restored, ..torn[x] } =~= torn[x]);
            }
        }
        assert(opened(torn, from1) =~= opened(torn, from2));
    }
}

/// Where every collectible task is known, a scan and a dead list condemn the same tasks.
proof fn lemma_same_condemned(g: Graph, dead: Set<TaskId>)
    requires
        graph_wf(g),
        all_garbage_known(g, dead),
        condemned_below_ancestors(g, dead),
    ensures
        condemned(g, scan_seeds(g)) == condemned(g, dead),
{
    let scanned = condemned(g, scan_seeds(g));
    let listed = condemned(g, dead);
    lemma_condemned(g, scan_seeds(g));
    lemma_condemned(g, dead);
    assert forall|t: TaskId| scanned.contains(t) implies listed.contains(t) by {
        assert(closed_under_collection(g, scan_seeds(g), listed)) by {
            assert forall|x: TaskId| scan_seeds(g).contains(x) implies dead.contains(x) by {
                assert(g.contains_key(x));
            }
        }
    }
    assert(closed_under_collection(g, dead, scanned)) by {
        assert forall|t: TaskId| #[trigger]
            g.contains_key(t) && !transient(t) && g[t].unblocked() && (dead.contains(t)
                || !parents(g, t).is_empty()) && parents(g, t).subset_of(scanned)
                && g[t].uppers.subset_of(scanned) implies scanned.contains(t) by {
            if parents(g, t).is_empty() {
                assert(parents(g, t).subset_of(listed));
                assert(g[t].uppers.subset_of(listed));
                assert(listed.contains(t));
                lemma_parentless(g, t);
                assert forall|u: TaskId| !g[t].uppers.contains(u) by {
                    if g[t].uppers.contains(u) {
                        assert(ancestor(g, u, t));
                        let path = choose|path: Seq<TaskId>| #[trigger]
                            descent(g, path) && path[0] == u && path.last() == t;
                        assert(parents(g, path[path.len() - 2 + 1]).contains(
                            path[path.len() - 2],
                        ));
                    }
                }
                assert(collectible(t, g[t]));
                assert(scan_seeds(g).contains(t));
            }
        }
    }
    assert forall|t: TaskId| listed.contains(t) implies scanned.contains(t) by {}
    assert(scanned =~= listed);
}

/// Whether every collectible task is in memory, where a scan sees it, and on the dead list.
pub open spec fn all_garbage_known(g: Graph, dead: Set<TaskId>) -> bool {
    forall|t: TaskId| #[trigger]
        g.contains_key(t) && collectible(t, g[t]) ==> dead.contains(t) && g[t].residency
            == Residency::Restored
}

/// A new task, and a new child edge, keep each persistent upper an ancestor.
pub proof fn law_child_edge_keeps_uppers_ancestors(g: Graph, p: TaskId, c: TaskId)
    requires
        graph_wf(g),
        uppers_are_ancestors(g),
        g.contains_key(p),
        g.contains_key(c),
    ensures
        uppers_are_ancestors(linked(g, p, c)),
        forall|t: TaskId| !g.contains_key(t) ==> uppers_are_ancestors(#[trigger] with_task(g, t)),
{
    lemma_uppers_stay_ancestors(g, linked(g, p, c));
    assert forall|t: TaskId| !g.contains_key(t) implies uppers_are_ancestors(
        #[trigger] with_task(g, t),
    ) by {
        lemma_uppers_stay_ancestors(g, with_task(g, t));
    }
}

/// A new upper keeps each persistent upper an ancestor where it is transient, or an ancestor itself; and
/// a rebalance that takes one away keeps it.
pub proof fn law_upper_edge_keeps_uppers_ancestors(g: Graph, u: TaskId, t: TaskId)
    requires
        graph_wf(g),
        uppers_are_ancestors(g),
        g.contains_key(u),
        g.contains_key(t),
    ensures
        transient(u) || ancestor(g, u, t) ==> uppers_are_ancestors(aggregated(g, u, t)),
        uppers_are_ancestors(unhooked(g, u, set![t])),
{
    lemma_uppers_stay_ancestors(g, unhooked(g, u, set![t]));
    let h = aggregated(g, u, t);
    assert forall|x: TaskId| #[trigger] parents(g, x).subset_of(parents(h, x)) by {
        assert(parents(h, x) =~= parents(g, x));
    }
    if transient(u) || ancestor(g, u, t) {
        assert forall|c: TaskId, v: TaskId| #[trigger]
            h[c].uppers.contains(v) && h.contains_key(c) && !transient(v) implies ancestor(
            h,
            v,
            c,
        ) by {
            if !(c == t && v == u) {
                assert(g[c].uppers.contains(v));
            }
            lemma_ancestor_stays(g, h, v, c);
        }
    }
}

/// A pass keeps each persistent upper an ancestor.
pub proof fn law_pass_keeps_uppers_ancestors(
    mode: GcMode,
    g: Graph,
    dead: Set<TaskId>,
    order: Seq<TaskId>,
)
    requires
        graph_wf(g),
        dead_wf(g, dead),
        schedule(mode, start(mode, g, dead), order),
        uppers_are_ancestors(g),
    ensures
        uppers_are_ancestors(run(mode, start(mode, g, dead), order).tasks),
{
    let s0 = start(mode, g, dead);
    let h = run(mode, s0, order).tasks;
    let d = newly_deleted(g, h);
    lemma_start(mode, g, dead);
    lemma_run(mode, s0, order);
    lemma_pass_graph(s0, order.to_set(), run(mode, s0, order));
    assert forall|c: TaskId, u: TaskId| #[trigger]
        h[c].uppers.contains(u) && h.contains_key(c) && !transient(u) implies ancestor(
        h,
        u,
        c,
    ) by {
        assert(h[c].uppers == g[c].uppers.difference(d));
        assert(g[c].uppers.contains(u) && !d.contains(u));
        let path = choose|path: Seq<TaskId>| #[trigger]
            descent(g, path) && path[0] == u && path.last() == c;
        assert(descent(h, path)) by {
            assert forall|i: int|
                #![trigger path[i]]
                0 <= i < path.len() - 1 implies parents(h, path[i + 1]).contains(path[i]) by {
                assert(parents(g, path[i + 1]).contains(path[i]));
                if d.contains(path[i]) {
                    lemma_path_goes(g, d, path, i);
                }
                assert(g.contains_key(path[i]) && g[path[i]].children.contains(path[i + 1]));
                assert(h.contains_key(path[i + 1]));
            }
        }
    }
}

/// What a surviving task reads stays as it was: a pass takes no child, dependency or follower from a
/// task that it does not collect.
pub proof fn law_survivor_keeps_its_edges(
    mode: GcMode,
    g: Graph,
    dead: Set<TaskId>,
    order: Seq<TaskId>,
    t: TaskId,
)
    requires
        graph_wf(g),
        dead_wf(g, dead),
        schedule(mode, start(mode, g, dead), order),
        g.contains_key(t),
        !newly_deleted(g, run(mode, start(mode, g, dead), order).tasks).contains(t),
    ensures
        ({
            let h = run(mode, start(mode, g, dead), order).tasks;
            &&& h[t].children == g[t].children
            &&& h[t].dependencies == g[t].dependencies
            &&& h[t].followers == g[t].followers
            &&& forall|c: TaskId| #[trigger] h[t].children.contains(c) ==> !h[c].deleted
        }),
{
    let h = run(mode, start(mode, g, dead), order).tasks;
    law_pass_effect(mode, g, dead, order);
    assert(h.contains_key(t));
    assert forall|c: TaskId| #[trigger] h[t].children.contains(c) implies !h[c].deleted by {
        assert(h.contains_key(c));
        if h[c].deleted {
            law_no_edge_is_left(h, t, c);
        }
    }
}

/// Every candidate has one outcome. The seeds of an incremental pass, and the tasks whose last parents
/// it collects, are as many as the tasks collected, requeued and dropped.
pub proof fn law_every_candidate_has_one_outcome(
    g: Graph,
    dead: Set<TaskId>,
    order: Seq<TaskId>,
)
    requires
        graph_wf(g),
        dead_wf(g, dead),
        schedule(GcMode::Incremental, start(GcMode::Incremental, g, dead), order),
    ensures
        ({
            let end = run(GcMode::Incremental, start(GcMode::Incremental, g, dead), order);
            dead.len() + orphaned(g, newly_deleted(g, end.tasks)).len() == end.collected
                + end.requeued + end.dropped_stale
        }),
{
    lemma_start(GcMode::Incremental, g, dead);
    lemma_accounts_run(GcMode::Incremental, start(GcMode::Incremental, g, dead), order);
}

/// A pass comes to an end: it never runs more jobs than it had seeds, and tasks whose last parents it
/// collected.
pub proof fn law_pass_ends(mode: GcMode, g: Graph, dead: Set<TaskId>, order: Seq<TaskId>)
    requires
        graph_wf(g),
        dead_wf(g, dead),
        legal(mode, start(mode, g, dead), order),
    ensures
        order.len() <= seeds(mode, g, dead).len() + orphaned(
            g,
            newly_deleted(g, run(mode, start(mode, g, dead), order).tasks),
        ).len(),
        order.len() <= 2 * g.dom().len(),
{
    let s0 = start(mode, g, dead);
    let d = newly_deleted(g, run(mode, s0, order).tasks);
    lemma_start(mode, g, dead);
    lemma_accounts_run(mode, s0, order);
    lemma_jobs_counted(mode, s0, order);
    assert(seeds(mode, g, dead).subset_of(g.dom()));
    assert(orphaned(g, d).subset_of(g.dom()));
    vstd::set_lib::lemma_len_subset(seeds(mode, g, dead), g.dom());
    vstd::set_lib::lemma_len_subset(orphaned(g, d), g.dom());
}

/// No garbage is forgotten. A parentless task that is not on the dead list after an incremental pass
/// was parentless and not on the dead list before it.
pub proof fn law_no_garbage_is_forgotten(
    g: Graph,
    dead: Set<TaskId>,
    order: Seq<TaskId>,
    t: TaskId,
)
    requires
        graph_wf(g),
        dead_wf(g, dead),
        schedule(GcMode::Incremental, start(GcMode::Incremental, g, dead), order),
        g.contains_key(t),
        ({
            let end = run(GcMode::Incremental, start(GcMode::Incremental, g, dead), order);
            still_parentless(t, end.tasks[t]) && !end.dead.contains(t)
        }),
    ensures
        still_parentless(t, g[t]),
        !dead.contains(t),
{
    broadcast use vstd::multiset::group_multiset_axioms;

    let mode = GcMode::Incremental;
    let s0 = start(mode, g, dead);
    let end = run(mode, s0, order);
    lemma_start(mode, g, dead);
    lemma_run(mode, s0, order);
    lemma_pass_graph(s0, order.to_set(), end);
    lemma_incremental_start(g, dead);
    lemma_remembered_run(s0, order);
    assert(end.tasks.contains_key(t));
    assert(!end.pending.contains(t));
    lemma_parentless(g, t);
    assert(s0.pending.count(t) == if dead.contains(t) { 1nat } else { 0 });
}

/// Nor does change propagation forget any: what it leaves parentless is on the dead list, unless it was
/// parentless and not on the list before.
pub proof fn law_disconnect_forgets_nothing(
    g: Graph,
    dead: Set<TaskId>,
    p: TaskId,
    c: TaskId,
    t: TaskId,
)
    requires
        graph_wf(g),
        g.contains_key(p),
        g[p].children.contains(c),
        g.contains_key(t),
        ({
            let after = recorded(Some(GcMode::Incremental), g, dead, p, c);
            still_parentless(t, unlinked(g, p, c)[t]) && !after.contains(t)
        }),
    ensures
        still_parentless(t, g[t]),
        !dead.contains(t),
{
}

/// An incremental pass that requeues nothing leaves an empty dead list behind.
pub proof fn law_dead_list_is_drained(g: Graph, dead: Set<TaskId>, order: Seq<TaskId>)
    requires
        graph_wf(g),
        dead_wf(g, dead),
        schedule(GcMode::Incremental, start(GcMode::Incremental, g, dead), order),
        run(GcMode::Incremental, start(GcMode::Incremental, g, dead), order).requeued == 0,
    ensures
        run(GcMode::Incremental, start(GcMode::Incremental, g, dead), order).dead.is_empty(),
{
    lemma_start(GcMode::Incremental, g, dead);
    lemma_incremental_start(g, dead);
    lemma_remembered_run(start(GcMode::Incremental, g, dead), order);
}

/// A pass that no task can be collected from collects nothing and tears nothing down; in particular
/// one without seeds.
pub proof fn law_idle_pass(mode: GcMode, g: Graph, dead: Set<TaskId>, order: Seq<TaskId>)
    requires
        graph_wf(g),
        dead_wf(g, dead),
        schedule(mode, start(mode, g, dead), order),
        forall|t: TaskId| #[trigger]
            seeds(mode, g, dead).contains(t) ==> !collectible(t, g[t]),
    ensures
        run(mode, start(mode, g, dead), order).collected == 0,
        run(mode, start(mode, g, dead), order).tasks == opened(g, seeds(mode, g, dead)),
        seeds(mode, g, dead).is_empty() ==> order.len() == 0,
{
    let s0 = start(mode, g, dead);
    let d = newly_deleted(g, run(mode, s0, order).tasks);
    lemma_start(mode, g, dead);
    assert forall|t: TaskId| #[trigger] s0.pending.count(t) > 0 implies !collectible(
        t,
        s0.tasks[t],
    ) by {
        assert(seeds(mode, g, dead).contains(t));
    }
    lemma_idle_run(mode, s0, order);
    law_pass_effect(mode, g, dead, order);
    assert(d =~= Set::empty());
    lemma_torn_nothing(g);
    if seeds(mode, g, dead).is_empty() {
        law_pass_ends(mode, g, dead, order);
        assert(seeds(mode, g, dead) =~= Set::empty());
        assert(orphaned(g, d) =~= Set::empty()) by {
            assert forall|c: TaskId| !orphaned(g, d).contains(c) by {
                if orphaned(g, d).contains(c) {
                    let p = choose|p: TaskId| parents(g, c).contains(p);
                    assert(d.contains(p));
                }
            }
        }
    }
}

/// One incremental pass collects all that the dead list gives, where what is condemned is below
/// ancestors only: what it puts back on the list is blocked, and a second pass right after it collects
/// nothing.
pub proof fn law_second_pass_collects_nothing(
    g: Graph,
    dead: Set<TaskId>,
    order: Seq<TaskId>,
    second: Seq<TaskId>,
)
    requires
        graph_wf(g),
        dead_wf(g, dead),
        condemned_below_ancestors(g, dead),
        schedule(GcMode::Incremental, start(GcMode::Incremental, g, dead), order),
        ({
            let end = run(GcMode::Incremental, start(GcMode::Incremental, g, dead), order);
            schedule(
                GcMode::Incremental,
                start(GcMode::Incremental, end.tasks, end.dead),
                second,
            )
        }),
    ensures
        ({
            let end = run(GcMode::Incremental, start(GcMode::Incremental, g, dead), order);
            &&& forall|t: TaskId| #[trigger]
                end.dead.contains(t) ==> still_parentless(t, end.tasks[t]) && !collectible(
                    t,
                    end.tasks[t],
                )
            &&& run(
                GcMode::Incremental,
                start(GcMode::Incremental, end.tasks, end.dead),
                second,
            ).collected == 0
        }),
{
    let mode = GcMode::Incremental;
    let s0 = start(mode, g, dead);
    let end = run(mode, s0, order);
    law_pass_effect(mode, g, dead, order);
    lemma_start(mode, g, dead);
    lemma_run(mode, s0, order);
    lemma_pass_graph(s0, order.to_set(), end);
    lemma_awaiting(mode, g, dead);
    lemma_requeues_blocked_run(s0, order, condemned(g, dead));
    lemma_condemned(g, dead);
    law_collects_the_condemned(mode, g, dead, order);
    let d = newly_deleted(g, end.tasks);
    assert forall|t: TaskId| #[trigger] end.dead.contains(t) implies still_parentless(
        t,
        end.tasks[t],
    ) && !collectible(t, end.tasks[t]) by {
        lemma_dead_list_after(g, dead, order, t);
        assert(end.tasks.contains_key(t));
        if collectible(t, end.tasks[t]) {
            lemma_parentless(end.tasks, t);
            assert(parents(end.tasks, t) == parents(g, t).difference(d));
            assert(end.tasks[t].uppers == g[t].uppers.difference(d));
            assert forall|p: TaskId| parents(g, t).contains(p) implies condemned(g, dead).contains(
                p,
            ) by {
                assert(!parents(end.tasks, t).contains(p));
            }
            assert forall|u: TaskId| g[t].uppers.contains(u) implies condemned(g, dead).contains(
                u,
            ) by {
                assert(!end.tasks[t].uppers.contains(u));
            }
            assert(g.contains_key(t) && g[t].unblocked());
            assert(condemned(g, dead).contains(t));
        }
    }
    law_idle_pass(mode, end.tasks, end.dead, second);
}

/// A seed that is collectible when the pass starts is collected by it, even if its data was evicted to
/// disk.
pub proof fn law_collectible_seed_is_collected(
    mode: GcMode,
    g: Graph,
    dead: Set<TaskId>,
    order: Seq<TaskId>,
    t: TaskId,
)
    requires
        graph_wf(g),
        dead_wf(g, dead),
        schedule(mode, start(mode, g, dead), order),
        seeds(mode, g, dead).contains(t),
        collectible(t, g[t]),
    ensures
        newly_deleted(g, run(mode, start(mode, g, dead), order).tasks).contains(t),
{
    broadcast use vstd::multiset::group_multiset_axioms;

    let s0 = start(mode, g, dead);
    lemma_start(mode, g, dead);
    assert(s0.pending.count(t) == 1);
    lemma_seeds_collected_run(mode, s0, order, t);
    assert(!run(mode, s0, order).pending.contains(t));
}

/// A scan cannot see garbage that is not in memory: a parentless task whose data was evicted outlives
/// the pass.
pub proof fn law_scan_does_not_see_evicted_garbage(
    g: Graph,
    dead: Set<TaskId>,
    order: Seq<TaskId>,
    t: TaskId,
)
    requires
        graph_wf(g),
        dead_wf(g, dead),
        schedule(GcMode::Scan, start(GcMode::Scan, g, dead), order),
        g.contains_key(t),
        g[t].residency != Residency::Restored,
        g[t].parent_count == 0,
    ensures
        !newly_deleted(g, run(GcMode::Scan, start(GcMode::Scan, g, dead), order).tasks).contains(t),
{
    let s0 = start(GcMode::Scan, g, dead);
    lemma_start(GcMode::Scan, g, dead);
    lemma_traced_run(GcMode::Scan, s0, order);
    lemma_parentless(g, t);
    assert(s0.pending.count(t) == 0);
}

/// A task that is pinned, active or in progress when the pass starts is not collected.
pub proof fn law_blocked_task_survives(
    mode: GcMode,
    g: Graph,
    dead: Set<TaskId>,
    order: Seq<TaskId>,
    t: TaskId,
)
    requires
        graph_wf(g),
        dead_wf(g, dead),
        schedule(mode, start(mode, g, dead), order),
        g.contains_key(t),
        g[t].transient_ref_count > 0 || g[t].active || g[t].in_progress,
    ensures
        !newly_deleted(g, run(mode, start(mode, g, dead), order).tasks).contains(t),
{
    if newly_deleted(g, run(mode, start(mode, g, dead), order).tasks).contains(t) {
        law_only_garbage_is_collected(mode, g, dead, order, t);
    }
}

/// A dead-list entry is a hint, not a decision: a candidate that has got a parent which outlives the
/// pass is neither collected nor put back on the list.
pub proof fn law_resurrected_candidate_is_dropped(
    g: Graph,
    dead: Set<TaskId>,
    order: Seq<TaskId>,
    p: TaskId,
    t: TaskId,
)
    requires
        graph_wf(g),
        dead_wf(g, dead),
        schedule(GcMode::Incremental, start(GcMode::Incremental, g, dead), order),
        dead.contains(t),
        parents(g, t).contains(p),
        !newly_deleted(
            g,
            run(GcMode::Incremental, start(GcMode::Incremental, g, dead), order).tasks,
        ).contains(p),
    ensures
        ({
            let end = run(GcMode::Incremental, start(GcMode::Incremental, g, dead), order);
            &&& !newly_deleted(g, end.tasks).contains(t)
            &&& !end.dead.contains(t)
        }),
{
    let mode = GcMode::Incremental;
    let s0 = start(mode, g, dead);
    let end = run(mode, s0, order);
    lemma_start(mode, g, dead);
    lemma_run(mode, s0, order);
    lemma_pass_graph(s0, order.to_set(), end);
    lemma_incremental_start(g, dead);
    lemma_remembered_run(s0, order);
    assert(end.tasks.contains_key(t));
    assert(parents(end.tasks, t).contains(p));
    lemma_parentless(end.tasks, t);
    if newly_deleted(g, end.tasks).contains(t) {
        law_only_garbage_is_collected(mode, g, dead, order, t);
    }
}

/// A collected task that is connected again before it is gone comes to life: its mark is cleared, it is
/// made dirty, so that it is computed anew, and the next snapshot visits it.
pub proof fn law_resurrected_task_is_dirty(g: Graph, p: TaskId, c: TaskId)
    requires
        graph_wf(g),
        g.contains_key(p),
        !g[p].deleted,
        g.contains_key(c),
        g[c].deleted,
    ensures
        ({
            let task = linked(g, p, c)[c];
            !task.deleted && task.dirty && task.modified
        }),
{
}

/// A pin is undone by its unpin, and as long as it lasts it is counted.
pub proof fn law_unpin_undoes_pin(g: Graph, t: TaskId)
    requires
        g.contains_key(t),
    ensures
        unpinned(pinned(g, t), t) == g,
        pinned(g, t)[t].transient_ref_count > 0,
{
    assert(unpinned(pinned(g, t), t) =~= g);
}

} // verus!
