//! Laws of the backend over several passes, with edits of the graph between them.
use vstd::prelude::*;
use crate::edit::{recorded, unlinked};
use crate::gc::{lemma_some_order, passed, TurboTasksBackend};
use crate::graph::{lemma_parentless, parents, Graph};
use crate::laws::{
    all_garbage_known, cut_off, law_collectible_seed_is_collected, law_collects_the_condemned,
    law_cut_off_subtree_is_collected, law_dead_list_is_drained, law_loose_chain_is_cut_off,
    law_modes_agree, law_pass_effect, loose_chain,
};
use crate::mode::GcMode;
use crate::outcome::{closed_under_collection, condemned, condemned_below_ancestors};
use crate::pass::{newly_deleted, seeds};
use crate::stats::GcPassStats;
use crate::task::{collectible, transient, Residency, TaskId};
use crate::vec_set::lemma_push_contains;

verus! {

/// One pass: the backend before it and after it, and its statistics.
pub struct Round {
    pub from: TurboTasksBackend,
    pub to: TurboTasksBackend,
    pub stats: GcPassStats,
}

impl Round {
    /// Whether a pass of the given mode can have gone like this.
    pub open spec fn ran(self, mode: GcMode) -> bool {
        self.from.wf() && passed(mode, self.from, self.to, self.stats)
    }

    /// The tasks that the pass collected.
    pub open spec fn collected(self) -> Set<TaskId> {
        newly_deleted(self.from.storage@, self.to.storage@)
    }
}

/// How many tasks several passes collected, taken together.
pub open spec fn total(rounds: Seq<Round>) -> nat
    decreases rounds.len(),
{
    if rounds.len() == 0 {
        0
    } else {
        total(rounds.drop_last()) + rounds.last().stats.collected as nat
    }
}

/// How many tasks several sets hold, taken one by one.
pub open spec fn sizes(sets: Seq<Set<TaskId>>) -> nat
    decreases sets.len(),
{
    if sets.len() == 0 {
        0
    } else {
        sizes(sets.drop_last()) + sets.last().len()
    }
}

/// Whether a scan on one backend and an incremental pass on another met the same garbage: the two have
/// the same graph, in which every collectible task is in memory, and on the dead list of the second, and
/// each upper of a condemned task is an ancestor of it. Of the live tasks nothing is asked.
pub open spec fn same_garbage(scan: Round, incremental: Round) -> bool {
    &&& scan.ran(GcMode::Scan)
    &&& incremental.ran(GcMode::Incremental)
    &&& scan.from.storage@ == incremental.from.storage@
    &&& condemned_below_ancestors(incremental.from.storage@, incremental.from.gc_dead_list@)
    &&& all_garbage_known(scan.from.storage@, incremental.from.gc_dead_list@)
}

/// Parity: of the same garbage a scan and an incremental pass collect the same tasks, hence as many. If
/// the whole dead list is in memory, they also leave the same graph behind.
pub proof fn law_backends_agree(scan: Round, incremental: Round)
    requires
        same_garbage(scan, incremental),
    ensures
        scan.collected() == incremental.collected(),
        scan.stats.collected == incremental.stats.collected,
        (forall|t: TaskId| #[trigger]
            incremental.from.gc_dead_list@.contains(t) ==> incremental.from.storage@[t].residency
                == Residency::Restored) ==> scan.to.storage@ == incremental.to.storage@,
{
    let scan_order = lemma_some_order(GcMode::Scan, scan.from, scan.to, scan.stats);
    let order = lemma_some_order(
        GcMode::Incremental,
        incremental.from,
        incremental.to,
        incremental.stats,
    );
    law_modes_agree(
        scan.from.storage@,
        scan.from.gc_dead_list@,
        incremental.from.gc_dead_list@,
        scan_order,
        order,
    );
}

/// Parity over several rounds: scans and incremental passes that meet the same garbage round by round
/// collect the same total.
pub proof fn law_rounds_agree(scans: Seq<Round>, incrementals: Seq<Round>)
    requires
        scans.len() == incrementals.len(),
        forall|i: int|
            #![trigger scans[i]]
            0 <= i < scans.len() ==> same_garbage(scans[i], incrementals[i]),
    ensures
        total(scans) == total(incrementals),
    decreases scans.len(),
{
    if scans.len() > 0 {
        let last = scans.len() - 1;
        let front = scans.drop_last();
        assert(same_garbage(scans[last], incrementals[last]));
        law_backends_agree(scans[last], incrementals[last]);
        assert forall|i: int|
            #![trigger front[i]]
            0 <= i < front.len() implies same_garbage(front[i], incrementals.drop_last()[i]) by {
            assert(front[i] == scans[i]);
        }
        law_rounds_agree(front, incrementals.drop_last());
    }
}

/// A cut-off subtree is collected whole, and counted.
pub proof fn law_cut_off_subtree_counts(
    mode: GcMode,
    round: Round,
    sub: Set<TaskId>,
    rank: spec_fn(TaskId) -> nat,
)
    requires
        round.ran(mode),
        cut_off(mode, round.from.storage@, round.from.gc_dead_list@, sub, rank),
    ensures
        sub.subset_of(round.collected()),
        round.stats.collected >= sub.len(),
{
    let order = lemma_some_order(mode, round.from, round.to, round.stats);
    law_cut_off_subtree_is_collected(
        mode,
        round.from.storage@,
        round.from.gc_dead_list@,
        order,
        sub,
        rank,
    );
}

/// Passes that each find a subtree cut off collect, taken together, at least what the subtrees hold.
pub proof fn law_rounds_collect_what_is_cut_off(
    mode: GcMode,
    rounds: Seq<Round>,
    subs: Seq<Set<TaskId>>,
    ranks: Seq<spec_fn(TaskId) -> nat>,
)
    requires
        rounds.len() == subs.len(),
        rounds.len() == ranks.len(),
        forall|i: int|
            #![trigger rounds[i]]
            0 <= i < rounds.len() ==> rounds[i].ran(mode) && cut_off(
                mode,
                rounds[i].from.storage@,
                rounds[i].from.gc_dead_list@,
                subs[i],
                ranks[i],
            ),
    ensures
        total(rounds) >= sizes(subs),
    decreases rounds.len(),
{
    if rounds.len() > 0 {
        let last = rounds.len() - 1;
        let front = rounds.drop_last();
        assert(rounds[last].ran(mode));
        law_cut_off_subtree_counts(mode, rounds[last], subs[last], ranks[last]);
        assert forall|i: int| #![trigger front[i]] 0 <= i < front.len() implies front[i].ran(mode)
            && cut_off(
            mode,
            front[i].from.storage@,
            front[i].from.gc_dead_list@,
            subs.drop_last()[i],
            ranks.drop_last()[i],
        ) by {
            assert(front[i] == rounds[i]);
        }
        law_rounds_collect_what_is_cut_off(mode, front, subs.drop_last(), ranks.drop_last());
    }
}

/// Passes that each find a chain cut off at its head reclaim the full depth, every time.
pub proof fn law_chains_are_reclaimed_to_their_depth(
    mode: GcMode,
    rounds: Seq<Round>,
    chains: Seq<Seq<TaskId>>,
    depth: nat,
)
    requires
        rounds.len() == chains.len(),
        forall|i: int|
            #![trigger rounds[i]]
            0 <= i < rounds.len() ==> rounds[i].ran(mode) && loose_chain(
                mode,
                rounds[i].from.storage@,
                rounds[i].from.gc_dead_list@,
                chains[i],
            ) && chains[i].len() >= depth,
    ensures
        total(rounds) >= depth * rounds.len(),
        forall|i: int|
            #![trigger rounds[i]]
            0 <= i < rounds.len() ==> rounds[i].stats.collected >= chains[i].len(),
    decreases rounds.len(),
{
    if rounds.len() == 0 {
        assert(depth * rounds.len() == 0) by (nonlinear_arith)
            requires
                rounds.len() == 0,
        ;
    } else {
        let n = rounds.len();
        let last = n - 1;
        let front = rounds.drop_last();
        let chain = chains[last];
        let from = rounds[last].from;
        law_loose_chain_is_cut_off(mode, from.storage@, from.gc_dead_list@, chain);
        law_cut_off_subtree_counts(
            mode,
            rounds[last],
            chain.to_set(),
            |t: TaskId| chain.index_of(t) as nat,
        );
        assert forall|i: int| #![trigger front[i]] 0 <= i < front.len() implies front[i].ran(mode)
            && loose_chain(
            mode,
            front[i].from.storage@,
            front[i].from.gc_dead_list@,
            chains.drop_last()[i],
        ) && chains.drop_last()[i].len() >= depth by {
            assert(front[i] == rounds[i]);
        }
        law_chains_are_reclaimed_to_their_depth(mode, front, chains.drop_last(), depth);
        assert forall|i: int| #![trigger rounds[i]] 0 <= i < n implies rounds[i].stats.collected
            >= chains[i].len() by {
            if i < last {
                assert(front[i] == rounds[i]);
            }
        }
        assert(depth * n == depth * (n - 1) + depth) by (nonlinear_arith);
    }
}

/// Whether `fan` is all the garbage there is, side by side: its tasks, and no others, are collectible;
/// they are in memory, and nothing is below them.
pub open spec fn loose_fan(g: Graph, fan: Set<TaskId>) -> bool {
    &&& forall|t: TaskId| #[trigger]
        fan.contains(t) ==> g.contains_key(t) && collectible(t, g[t]) && g[t].residency
            == Residency::Restored && g[t].children.is_empty() && g[t].followers.is_empty()
    &&& forall|t: TaskId| #[trigger] g.contains_key(t) && collectible(t, g[t]) ==> fan.contains(t)
}

/// A fan-out that is let go at once is reclaimed as a whole, however wide it is, and neither kind of pass
/// collects anything else: each counts as many tasks as the fan has.
pub proof fn law_fan_is_reclaimed(mode: GcMode, round: Round, fan: Set<TaskId>)
    requires
        round.ran(mode),
        loose_fan(round.from.storage@, fan),
        mode == GcMode::Incremental ==> fan.subset_of(round.from.gc_dead_list@),
    ensures
        round.collected() == fan,
        round.stats.collected == fan.len(),
{
    let g = round.from.storage@;
    let dead = round.from.gc_dead_list@;
    let from = seeds(mode, g, dead);
    let d = round.collected();
    let order = lemma_some_order(mode, round.from, round.to, round.stats);
    law_pass_effect(mode, g, dead, order);
    law_collects_the_condemned(mode, g, dead, order);
    assert forall|t: TaskId| fan.contains(t) implies d.contains(t) by {
        law_collectible_seed_is_collected(mode, g, dead, order, t);
    }
    assert(closed_under_collection(g, from, fan)) by {
        assert forall|t: TaskId| #[trigger]
            g.contains_key(t) && !transient(t) && g[t].unblocked() && (from.contains(t)
                || !parents(g, t).is_empty()) && parents(g, t).subset_of(fan)
                && g[t].uppers.subset_of(fan) implies fan.contains(t) by {
            assert forall|p: TaskId| !parents(g, t).contains(p) by {
                if parents(g, t).contains(p) {
                    assert(fan.contains(p));
                }
            }
            assert forall|u: TaskId| !g[t].uppers.contains(u) by {
                if g[t].uppers.contains(u) {
                    assert(fan.contains(u));
                    assert(g[u].followers.contains(t));
                }
            }
            lemma_parentless(g, t);
            assert(collectible(t, g[t]));
        }
    }
    assert(d.subset_of(condemned(g, from)));
    assert(d =~= fan);
}

/// An edit of the graph between two passes.
pub enum Edit {
    /// `TurboTasksBackend::disconnect_child`.
    Disconnect { parent: TaskId, child: TaskId },
    /// Anything that leaves the dead list alone, such as an edge or a task more.
    Other { tasks: Graph },
}

/// The graph and the dead list after an edit.
pub open spec fn edited_once(
    gc: Option<GcMode>,
    g: Graph,
    dead: Set<TaskId>,
    edit: Edit,
) -> (Graph, Set<TaskId>) {
    match edit {
        Edit::Disconnect { parent, child } => (
            unlinked(g, parent, child),
            recorded(gc, g, dead, parent, child),
        ),
        Edit::Other { tasks } => (tasks, dead),
    }
}

/// The graph and the dead list after several edits, one after the other.
pub open spec fn edited(
    gc: Option<GcMode>,
    g: Graph,
    dead: Set<TaskId>,
    edits: Seq<Edit>,
) -> (Graph, Set<TaskId>)
    decreases edits.len(),
{
    if edits.len() == 0 {
        (g, dead)
    } else {
        let before = edited(gc, g, dead, edits.drop_last());
        edited_once(gc, before.0, before.1, edits.last())
    }
}

/// The children that the edits cut, in order.
pub open spec fn cuts(edits: Seq<Edit>) -> Seq<TaskId>
    decreases edits.len(),
{
    if edits.len() == 0 {
        seq![]
    } else {
        match edits.last() {
            Edit::Disconnect { child, .. } => cuts(edits.drop_last()).push(child),
            Edit::Other { .. } => cuts(edits.drop_last()),
        }
    }
}

/// The dead list follows what is cut, whatever else the graph holds and however it is edited: after any
/// edits it has at most one entry more for each call of `disconnect_child`, and each new entry is a
/// child that was cut.
pub proof fn law_dead_list_follows_the_cuts(
    gc: Option<GcMode>,
    g: Graph,
    dead: Set<TaskId>,
    edits: Seq<Edit>,
)
    requires
        dead.finite(),
    ensures
        ({
            let after = edited(gc, g, dead, edits).1;
            &&& after.finite()
            &&& dead.subset_of(after)
            &&& after.len() <= dead.len() + cuts(edits).len()
            &&& forall|t: TaskId| #[trigger]
                after.contains(t) ==> dead.contains(t) || cuts(edits).contains(t)
        }),
    decreases edits.len(),
{
    if edits.len() > 0 {
        let front = edits.drop_last();
        law_dead_list_follows_the_cuts(gc, g, dead, front);
        let after = edited(gc, g, dead, edits).1;
        let before = edited(gc, g, dead, front);
        assert forall|t: TaskId| #[trigger] after.contains(t) implies dead.contains(t) || cuts(
            edits,
        ).contains(t) by {
            match edits.last() {
                Edit::Disconnect { parent, child } => {
                    lemma_push_contains(cuts(front), child);
                    assert(t == child || before.1.contains(t));
                },
                Edit::Other { tasks } => {
                    assert(before.1.contains(t));
                },
            }
        }
    }
}

/// Seeds follow the garbage, not the live set: an incremental pass has at most one seed for each child
/// that was cut since the pass before it, beside what that pass put back on the dead list.
pub proof fn law_seeds_follow_the_cuts(last: Round, edits: Seq<Edit>, next: Round)
    requires
        last.ran(GcMode::Incremental),
        next.ran(GcMode::Incremental),
        next.from.gc_dead_list@ == edited(
            last.to.gc,
            last.to.storage@,
            last.to.gc_dead_list@,
            edits,
        ).1,
    ensures
        next.stats.seed_candidates <= last.to.gc_dead_list@.len() + cuts(edits).len(),
        last.stats.requeued == 0 ==> next.stats.seed_candidates <= cuts(edits).len(),
{
    let g = last.from.storage@;
    let dead = last.from.gc_dead_list@;
    let order = lemma_some_order(GcMode::Incremental, last.from, last.to, last.stats);
    law_pass_effect(GcMode::Incremental, g, dead, order);
    let left = last.to.gc_dead_list@;
    assert(left.subset_of(last.to.storage@.dom()));
    vstd::set_lib::lemma_set_subset_finite(last.to.storage@.dom(), left);
    law_dead_list_follows_the_cuts(last.to.gc, last.to.storage@, left, edits);
    if last.stats.requeued == 0 {
        law_dead_list_is_drained(g, dead, order);
        assert(left =~= Set::empty());
    }
}

/// Whether the dead lists of the passes come from each other by edits: the first one from an empty list
/// beside `first`, each further one from what the pass before it left.
pub open spec fn in_turn(
    gc: Option<GcMode>,
    first: Graph,
    rounds: Seq<Round>,
    edits: Seq<Seq<Edit>>,
) -> bool {
    &&& edits.len() == rounds.len()
    &&& forall|i: int|
        #![trigger edits[i]]
        0 <= i < rounds.len() ==> rounds[i].from.gc_dead_list@ == if i == 0 {
            edited(gc, first, Set::empty(), edits[i]).1
        } else {
            edited(
                rounds[i - 1].to.gc,
                rounds[i - 1].to.storage@,
                rounds[i - 1].to.gc_dead_list@,
                edits[i],
            ).1
        }
}

/// Churn: over rounds in each of which a subtree is cut off, scans and incremental passes collect the
/// same total, and at least what the subtrees hold. Each incremental pass has at most one seed for each
/// child that was cut, however many tasks are live, if the pass before it requeued nothing.
pub proof fn law_churn_is_reclaimed(
    gc: Option<GcMode>,
    first: Graph,
    scans: Seq<Round>,
    incrementals: Seq<Round>,
    edits: Seq<Seq<Edit>>,
    subs: Seq<Set<TaskId>>,
    ranks: Seq<spec_fn(TaskId) -> nat>,
)
    requires
        scans.len() == incrementals.len(),
        subs.len() == incrementals.len(),
        ranks.len() == incrementals.len(),
        in_turn(gc, first, incrementals, edits),
        forall|i: int|
            #![trigger scans[i]]
            0 <= i < scans.len() ==> same_garbage(scans[i], incrementals[i]),
        forall|i: int|
            #![trigger incrementals[i]]
            0 <= i < incrementals.len() ==> cut_off(
                GcMode::Incremental,
                incrementals[i].from.storage@,
                incrementals[i].from.gc_dead_list@,
                subs[i],
                ranks[i],
            ),
    ensures
        total(scans) == total(incrementals),
        total(incrementals) >= sizes(subs),
        forall|i: int|
            #![trigger edits[i]]
            0 <= i < incrementals.len() && (i > 0 ==> incrementals[i - 1].stats.requeued == 0)
                ==> incrementals[i].stats.seed_candidates <= cuts(edits[i]).len(),
{
    law_rounds_agree(scans, incrementals);
    assert forall|i: int| 0 <= i < incrementals.len() implies (#[trigger] incrementals[i]).ran(
        GcMode::Incremental,
    ) by {
        assert(same_garbage(scans[i], incrementals[i]));
    }
    law_rounds_collect_what_is_cut_off(GcMode::Incremental, incrementals, subs, ranks);
    lemma_seeds_of_rounds(gc, first, incrementals, edits);
}

/// Each incremental pass has at most one seed for each child cut since a pass that requeued nothing.
proof fn lemma_seeds_of_rounds(
    gc: Option<GcMode>,
    first: Graph,
    rounds: Seq<Round>,
    edits: Seq<Seq<Edit>>,
)
    requires
        in_turn(gc, first, rounds, edits),
        forall|i: int|
            0 <= i < rounds.len() ==> (#[trigger] rounds[i]).ran(GcMode::Incremental),
    ensures
        forall|i: int|
            #![trigger edits[i]]
            0 <= i < rounds.len() && (i > 0 ==> rounds[i - 1].stats.requeued == 0)
                ==> rounds[i].stats.seed_candidates <= cuts(edits[i]).len(),
{
    assert forall|i: int|
        #![trigger edits[i]]
        0 <= i < rounds.len() && (i > 0
            ==> rounds[i - 1].stats.requeued == 0) implies rounds[i].stats.seed_candidates <= cuts(
        edits[i],
    ).len() by {
        assert(rounds[i].ran(GcMode::Incremental));
        if i == 0 {
            law_dead_list_follows_the_cuts(gc, first, Set::empty(), edits[i]);
        } else {
            assert(rounds[i - 1].ran(GcMode::Incremental));
            law_seeds_follow_the_cuts(rounds[i - 1], edits[i], rounds[i]);
        }
    }
}

/// Deep chains: over rounds in each of which a chain is cut off at its head, scans and incremental passes
/// collect the same total, the full depth each time; and each incremental pass has at most one seed for
/// each child that was cut, if the pass before it requeued nothing.
pub proof fn law_deep_chains_are_reclaimed(
    gc: Option<GcMode>,
    first: Graph,
    scans: Seq<Round>,
    incrementals: Seq<Round>,
    edits: Seq<Seq<Edit>>,
    chains: Seq<Seq<TaskId>>,
    depth: nat,
)
    requires
        scans.len() == incrementals.len(),
        chains.len() == incrementals.len(),
        in_turn(gc, first, incrementals, edits),
        forall|i: int|
            #![trigger scans[i]]
            0 <= i < scans.len() ==> same_garbage(scans[i], incrementals[i]),
        forall|i: int|
            #![trigger incrementals[i]]
            0 <= i < incrementals.len() ==> loose_chain(
                GcMode::Incremental,
                incrementals[i].from.storage@,
                incrementals[i].from.gc_dead_list@,
                chains[i],
            ) && chains[i].len() >= depth,
    ensures
        total(scans) == total(incrementals),
        total(incrementals) >= depth * incrementals.len(),
        forall|i: int|
            #![trigger edits[i]]
            0 <= i < incrementals.len() && (i > 0 ==> incrementals[i - 1].stats.requeued == 0)
                ==> incrementals[i].stats.seed_candidates <= cuts(edits[i]).len(),
{
    law_rounds_agree(scans, incrementals);
    assert forall|i: int| 0 <= i < incrementals.len() implies (#[trigger] incrementals[i]).ran(
        GcMode::Incremental,
    ) by {
        assert(same_garbage(scans[i], incrementals[i]));
    }
    law_chains_are_reclaimed_to_their_depth(GcMode::Incremental, incrementals, chains, depth);
    lemma_seeds_of_rounds(gc, first, incrementals, edits);
}

} // verus!
