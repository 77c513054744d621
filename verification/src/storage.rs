//! The tasks of the backend, kept as plain values.
use vstd::prelude::*;
use std::collections::BTreeMap;
use crate::edit::{
    aggregated, depending, last_reference_dropped, lemma_aggregated_wf, lemma_depending_wf,
    lemma_linked_wf, lemma_persistent_bound, lemma_relabelled_wf, lemma_unhooked_wf,
    lemma_unlinked_wf, lemma_with_task_wf, linked, pinned, resident, unlinked, unpinned, with_task,
};
use crate::graph::{graph_wf, lemma_parents_finite, parents, transient_parents, Graph};
use crate::laws::{law_child_edge_keeps_uppers_ancestors, law_upper_edge_keeps_uppers_ancestors};
use crate::outcome::{ancestor, lemma_uppers_stay_ancestors, uppers_are_ancestors};
use crate::pass::scan_seeds;
use crate::task::{
    ids, is_transient, transient, Dependent, OutdatedEdge, Residency, TaskId, TaskModel,
    TaskStorage,
};
use crate::teardown::{
    cleaned, lemma_clean_nothing, lemma_clean_one_more, lemma_unhook_nothing, lemma_unhook_one_more,
    marked_deleted, reached, unhooked,
};
use crate::vec_set::{lemma_push_contains, lemma_push_set};

verus! {

/// All tasks, by id.
pub struct Storage {
    tasks: BTreeMap<TaskId, TaskStorage>,
}

impl View for Storage {
    type V = Graph;

    closed spec fn view(&self) -> Graph {
        Map::new(|x: TaskId| self.tasks@.contains_key(x), |x: TaskId| self.tasks@[x]@)
    }
}

impl Storage {
    /// What every storage keeps.
    pub closed spec fn wf(&self) -> bool {
        forall|x: TaskId| #[trigger] self.tasks@.contains_key(x) ==> self.tasks@[x].wf()
    }

    /// A storage without tasks.
    pub fn new() -> (s: Self)
        ensures
            s.wf(),
            s@ == Map::<TaskId, TaskModel>::empty(),
    {
        let s = Storage { tasks: BTreeMap::new() };
        assert(s@ =~= Map::empty());
        s
    }

    /// What the collector reads of `task`, wherever its data is.
    pub fn get(&self, task: TaskId) -> (r: Option<&TaskStorage>)
        requires
            self.wf(),
        ensures
            match r {
                Some(t) => self@.contains_key(task) && t@ == self@[task] && t.wf(),
                None => !self@.contains_key(task),
            },
    {
        self.tasks.get(&task)
    }

    /// Takes `task` out, to be changed and put back.
    fn take(&mut self, task: TaskId) -> (t: TaskStorage)
        requires
            old(self).wf(),
            old(self)@.contains_key(task),
        ensures
            final(self).wf(),
            final(self)@ == old(self)@.remove(task),
            t.wf(),
            t@ == old(self)@[task],
    {
        let t = self.tasks.remove(&task).unwrap();
        assert(self@ =~= old(self)@.remove(task));
        t
    }

    /// Puts `task` in.
    fn put(&mut self, task: TaskId, t: TaskStorage)
        requires
            old(self).wf(),
            t.wf(),
        ensures
            final(self).wf(),
            final(self)@ == old(self)@.insert(task, t@),
    {
        self.tasks.insert(task, t);
        assert(self@ =~= old(self)@.insert(task, t@));
    }

    /// The ids of all tasks, in ascending order.
    pub fn task_ids(&self) -> (v: Vec<TaskId>)
        ensures
            v@.no_duplicates(),
            v@.to_set() == self@.dom(),
    {
        let mut v: Vec<TaskId> = Vec::new();
        for x in iter: self.tasks.keys()
            invariant
                iter.seq().unref().to_set() == self.tasks@.dom(),
                iter.seq().unref().no_duplicates(),
                v@ == iter.seq().unref().take(iter.index()),
                iter.index() == iter.seq().len() ==> v@ == iter.seq().unref(),
        {
            v.push(*x);
            assert(v@ =~= iter.seq().unref().take(v@.len() as int));
        }
        assert(self@.dom() =~= self.tasks@.dom());
        v
    }

    /// Adds a new task that nothing refers to. Says whether the id was free; if not, nothing changes.
    pub fn insert_task(&mut self, task: TaskId) -> (fresh: bool)
        requires
            old(self).wf(),
            graph_wf(old(self)@),
        ensures
            final(self).wf(),
            graph_wf(final(self)@),
            fresh == !old(self)@.contains_key(task),
            final(self)@ == if fresh {
                with_task(old(self)@, task)
            } else {
                old(self)@
            },
            uppers_are_ancestors(old(self)@) ==> uppers_are_ancestors(final(self)@),
    {
        if self.get(task).is_some() {
            return false;
        }
        proof {
            lemma_with_task_wf(self@, task);
        }
        proof {
            if uppers_are_ancestors(self@) {
                lemma_uppers_stay_ancestors(self@, with_task(self@, task));
            }
        }
        self.put(task, TaskStorage::new());
        true
    }

    /// Makes `child` a child of `parent`. Says whether it was none yet; if it was, nothing changes.
    pub fn link_child(&mut self, parent: TaskId, child: TaskId) -> (fresh: bool)
        requires
            old(self).wf(),
            graph_wf(old(self)@),
            old(self)@.contains_key(parent),
            old(self)@.contains_key(child),
            !old(self)@[parent].deleted,
            transient(child) ==> transient(parent),
            transient(parent) ==> old(self)@[child].transient_ref_count < u32::MAX,
        ensures
            final(self).wf(),
            graph_wf(final(self)@),
            fresh == !old(self)@[parent].children.contains(child),
            final(self)@ == if fresh {
                linked(old(self)@, parent, child)
            } else {
                old(self)@
            },
            uppers_are_ancestors(old(self)@) ==> uppers_are_ancestors(final(self)@),
    {
        let ghost g = self@;
        let mut p = self.take(parent);
        if p.children.contains(&child) {
            self.put(parent, p);
            assert(self@ =~= g);
            return false;
        }
        proof {
            lemma_linked_wf(g, parent, child);
            lemma_persistent_bound(parents(g, child));
        }
        proof {
            if uppers_are_ancestors(g) {
                law_child_edge_keeps_uppers_ancestors(g, parent, child);
            }
        }
        p.children.insert(child);
        p.modified = true;
        p.residency = Residency::Restored;
        self.put(parent, p);
        let mut c = self.take(child);
        if is_transient(parent) {
            c.transient_ref_count = c.transient_ref_count + 1;
        } else {
            c.parent_count = c.parent_count + 1;
        }
        if c.deleted {
            c.deleted = false;
            c.dirty = true;
        }
        c.modified = true;
        c.residency = Residency::Restored;
        self.put(child, c);
        assert(self@ =~= linked(g, parent, child));
        true
    }

    /// Takes the edge from `parent` to `child` out. Says whether it was the last reference to the
    /// child that counts.
    pub fn unlink_child(&mut self, parent: TaskId, child: TaskId) -> (last: bool)
        requires
            old(self).wf(),
            graph_wf(old(self)@),
            old(self)@.contains_key(parent),
            old(self)@[parent].children.contains(child),
        ensures
            final(self).wf(),
            graph_wf(final(self)@),
            final(self)@ == unlinked(old(self)@, parent, child),
            last == last_reference_dropped(old(self)@, parent, child),
    {
        let ghost g = self@;
        proof {
            lemma_unlinked_wf(g, parent, child);
        }
        let mut p = self.take(parent);
        p.children.remove(&child);
        p.modified = true;
        p.residency = Residency::Restored;
        self.put(parent, p);
        let mut c = self.take(child);
        c.modified = true;
        c.residency = Residency::Restored;
        let last = if is_transient(parent) {
            c.transient_ref_count = c.transient_ref_count - 1;
            c.parent_count == 0 && c.transient_ref_count == 0
        } else {
            c.parent_count = c.parent_count - 1;
            c.parent_count == 0
        };
        self.put(child, c);
        assert(self@ =~= unlinked(g, parent, child));
        last
    }

    /// Makes `upper` an upper of `task`.
    pub fn link_upper(&mut self, upper: TaskId, task: TaskId)
        requires
            old(self).wf(),
            graph_wf(old(self)@),
            old(self)@.contains_key(upper),
            old(self)@.contains_key(task),
            !old(self)@[upper].deleted,
            !old(self)@[task].deleted,
        ensures
            final(self).wf(),
            graph_wf(final(self)@),
            final(self)@ == aggregated(old(self)@, upper, task),
            uppers_are_ancestors(old(self)@) && (transient(upper) || ancestor(
                old(self)@,
                upper,
                task,
            )) ==> uppers_are_ancestors(final(self)@),
    {
        let ghost g = self@;
        proof {
            lemma_aggregated_wf(g, upper, task);
        }
        proof {
            if uppers_are_ancestors(g) {
                law_upper_edge_keeps_uppers_ancestors(g, upper, task);
            }
        }
        let mut u = self.take(upper);
        u.followers.insert(task);
        u.modified = true;
        u.residency = Residency::Restored;
        self.put(upper, u);
        let mut t = self.take(task);
        t.uppers.insert(upper);
        t.modified = true;
        t.residency = Residency::Restored;
        self.put(task, t);
        assert(self@ =~= aggregated(g, upper, task));
    }

    /// Takes `upper` out of the uppers of `task`, as an aggregation rebalance does.
    pub fn unlink_upper(&mut self, upper: TaskId, task: TaskId)
        requires
            old(self).wf(),
            graph_wf(old(self)@),
            old(self)@.contains_key(upper),
            old(self)@.contains_key(task),
        ensures
            final(self).wf(),
            graph_wf(final(self)@),
            final(self)@ == unhooked(old(self)@, upper, set![task]),
            uppers_are_ancestors(old(self)@) ==> uppers_are_ancestors(final(self)@),
    {
        proof {
            lemma_unhooked_wf(self@, upper, task);
        }
        proof {
            if uppers_are_ancestors(self@) {
                law_upper_edge_keeps_uppers_ancestors(self@, upper, task);
            }
        }
        self.unhook(upper, task);
    }

    /// Notes that `task` reads what `edge` names, at both ends.
    pub fn add_dependency(&mut self, task: TaskId, edge: OutdatedEdge)
        requires
            old(self).wf(),
            graph_wf(old(self)@),
            old(self)@.contains_key(task),
            old(self)@.contains_key(edge.target()),
            !old(self)@[task].deleted,
            !(edge is Child),
        ensures
            final(self).wf(),
            graph_wf(final(self)@),
            final(self)@ == depending(old(self)@, task, edge),
            uppers_are_ancestors(old(self)@) ==> uppers_are_ancestors(final(self)@),
    {
        let ghost g = self@;
        proof {
            lemma_depending_wf(g, task, edge);
        }
        let mut t = self.take(task);
        t.add_dependency(edge);
        t.modified = true;
        t.residency = Residency::Restored;
        self.put(task, t);
        let target = edge.target_task();
        let mut x = self.take(target);
        x.dependents.insert(Dependent { task: task, edge: edge });
        x.modified = true;
        x.residency = Residency::Restored;
        self.put(target, x);
        assert(self@ =~= depending(g, task, edge));
        proof {
            if uppers_are_ancestors(g) {
                lemma_uppers_stay_ancestors(g, self@);
            }
        }
    }

    /// Sets whether `task` is kept active, and whether it is in progress.
    pub fn set_activity(&mut self, task: TaskId, active: bool, in_progress: bool)
        requires
            old(self).wf(),
            graph_wf(old(self)@),
            old(self)@.contains_key(task),
        ensures
            final(self).wf(),
            graph_wf(final(self)@),
            final(self)@ == old(self)@.insert(
                task,
                (TaskModel { active: active, in_progress: in_progress, ..old(self)@[task] }),
            ),
            uppers_are_ancestors(old(self)@) ==> uppers_are_ancestors(final(self)@),
    {
        let ghost g = self@;
        let mut t = self.take(task);
        t.active = active;
        t.in_progress = in_progress;
        self.put(task, t);
        proof {
            lemma_relabelled_wf(g, task, t@);
        }
        assert(self@ =~= g.insert(task, t@));
        proof {
            if uppers_are_ancestors(g) {
                lemma_uppers_stay_ancestors(g, self@);
            }
        }
    }

    /// Brings the data of `task` into memory, or evicts it.
    pub fn set_residency(&mut self, task: TaskId, residency: Residency)
        requires
            old(self).wf(),
            graph_wf(old(self)@),
            old(self)@.contains_key(task),
        ensures
            final(self).wf(),
            graph_wf(final(self)@),
            final(self)@ == old(self)@.insert(
                task,
                (TaskModel { residency: residency, ..old(self)@[task] }),
            ),
            uppers_are_ancestors(old(self)@) ==> uppers_are_ancestors(final(self)@),
    {
        let ghost g = self@;
        let mut t = self.take(task);
        t.residency = residency;
        self.put(task, t);
        proof {
            lemma_relabelled_wf(g, task, t@);
        }
        assert(self@ =~= g.insert(task, t@));
        proof {
            if uppers_are_ancestors(g) {
                lemma_uppers_stay_ancestors(g, self@);
            }
        }
    }

    /// Counts one more reference to `task` from outside the graph, if the task has an entry in
    /// memory. Says whether it has one.
    pub fn gc_increment_transient_ref_count(&mut self, task: TaskId) -> (existed: bool)
        requires
            old(self).wf(),
            graph_wf(old(self)@),
            resident(old(self)@, task) ==> old(self)@[task].transient_ref_count < u32::MAX,
        ensures
            final(self).wf(),
            graph_wf(final(self)@),
            existed == resident(old(self)@, task),
            final(self)@ == if existed {
                pinned(old(self)@, task)
            } else {
                old(self)@
            },
            uppers_are_ancestors(old(self)@) ==> uppers_are_ancestors(final(self)@),
    {
        let ghost g = self@;
        match self.get(task) {
            None => {
                return false;
            },
            Some(t) => {
                if t.residency == Residency::Disk {
                    return false;
                }
            },
        }
        let mut t = self.take(task);
        t.transient_ref_count = t.transient_ref_count + 1;
        self.put(task, t);
        proof {
            lemma_relabelled_wf(g, task, t@);
        }
        assert(self@ =~= pinned(g, task));
        proof {
            if uppers_are_ancestors(g) {
                lemma_uppers_stay_ancestors(g, self@);
            }
        }
        true
    }

    /// Counts one reference to `task` from outside the graph less, if the task has an entry in
    /// memory. Says whether it has one.
    pub fn gc_decrement_transient_ref_count(&mut self, task: TaskId) -> (existed: bool)
        requires
            old(self).wf(),
            graph_wf(old(self)@),
            resident(old(self)@, task) ==> old(self)@[task].transient_ref_count
                > transient_parents(old(self)@, task).len(),
        ensures
            final(self).wf(),
            graph_wf(final(self)@),
            existed == resident(old(self)@, task),
            final(self)@ == if existed {
                unpinned(old(self)@, task)
            } else {
                old(self)@
            },
            uppers_are_ancestors(old(self)@) ==> uppers_are_ancestors(final(self)@),
    {
        let ghost g = self@;
        match self.get(task) {
            None => {
                return false;
            },
            Some(t) => {
                if t.residency == Residency::Disk {
                    return false;
                }
            },
        }
        let mut t = self.take(task);
        t.transient_ref_count = t.transient_ref_count - 1;
        self.put(task, t);
        proof {
            lemma_relabelled_wf(g, task, t@);
        }
        assert(self@ =~= unpinned(g, task));
        proof {
            if uppers_are_ancestors(g) {
                lemma_uppers_stay_ancestors(g, self@);
            }
        }
        true
    }

    /// Whether some reference to `task` from outside the graph is a pin: the task has an entry in
    /// memory, and more references are counted than it has transient parents.
    pub fn is_pinned(&self, task: TaskId) -> (b: bool)
        requires
            self.wf(),
            graph_wf(self@),
        ensures
            b == (resident(self@, task) && self@[task].transient_ref_count > transient_parents(
                self@,
                task,
            ).len()),
    {
        let count: u32 = match self.get(task) {
            None => {
                return false;
            },
            Some(t) => {
                if t.residency == Residency::Disk {
                    return false;
                }
                t.transient_ref_count
            },
        };
        let all = self.task_ids();
        let ghost g = self@;
        let ghost listing = transient_parents(g, task);
        let ghost mut found = Set::<TaskId>::empty();
        let mut parents_found: u32 = 0;
        let mut i: usize = 0;
        proof {
            lemma_parents_finite(g, task);
        }
        while i < all.len()
            invariant
                self.wf(),
                g == self@,
                graph_wf(g),
                g.contains_key(task),
                count == g[task].transient_ref_count,
                listing == transient_parents(g, task),
                listing.finite(),
                i <= all@.len(),
                all@.no_duplicates(),
                all@.to_set() == g.dom(),
                found.finite(),
                parents_found == found.len(),
                forall|p: TaskId| #[trigger]
                    found.contains(p) == (all@.take(i as int).contains(p) && listing.contains(p)),
            decreases all@.len() - i,
        {
            let p = all[i];
            let ghost seen = all@.take(i as int);
            proof {
                assert(all@.to_set().contains(p));
                assert(!seen.contains(p));
                assert(all@.take(i + 1) =~= seen.push(p));
                lemma_push_contains(seen, p);
            }
            if is_transient(p) && self.get(p).unwrap().children.contains(&task) {
                proof {
                    assert(listing.contains(p));
                    found = found.insert(p);
                    assert(found.subset_of(listing));
                    vstd::set_lib::lemma_len_subset(found, listing);
                }
                parents_found = parents_found + 1;
            }
            i = i + 1;
        }
        proof {
            assert(all@.take(i as int) =~= all@);
            assert forall|p: TaskId| listing.contains(p) implies found.contains(p) by {
                assert(all@.to_set().contains(p));
            }
            assert(found =~= listing);
        }
        count > parents_found
    }

    /// The tasks in memory that can be collected: the seeds of a scan.
    pub fn gc_collectible_candidates(&self) -> (v: Vec<TaskId>)
        requires
            self.wf(),
        ensures
            v@.no_duplicates(),
            v@.to_set() == scan_seeds(self@),
    {
        let all = self.task_ids();
        let mut v: Vec<TaskId> = Vec::new();
        let mut i: usize = 0;
        while i < all.len()
            invariant
                self.wf(),
                all@.no_duplicates(),
                all@.to_set() == self@.dom(),
                i <= all@.len(),
                v@.no_duplicates(),
                forall|x: TaskId| #[trigger]
                    v@.contains(x) == (all@.take(i as int).contains(x) && scan_seeds(
                        self@,
                    ).contains(x)),
            decreases all@.len() - i,
        {
            let task = all[i];
            let ghost before = v@;
            let ghost seen = all@.take(i as int);
            assert(all@.to_set().contains(task));
            let t = self.get(task).unwrap();
            assert(!seen.contains(task));
            assert(!before.contains(task));
            if t.gc_maybe_collectible(task) {
                v.push(task);
                proof {
                    lemma_push_contains(before, task);
                }
            }
            assert(all@.take(i + 1) =~= seen.push(task));
            proof {
                lemma_push_contains(seen, task);
            }
            i = i + 1;
        }
        assert(all@.take(i as int) =~= all@);
        assert(v@.to_set() =~= scan_seeds(self@)) by {
            assert forall|x: TaskId| v@.to_set().contains(x) == scan_seeds(self@).contains(x) by {
                assert(v@.contains(x) == (all@.contains(x) && scan_seeds(self@).contains(x)));
                assert(all@.to_set().contains(x) == self@.contains_key(x));
            }
        }
        v
    }

    /// Takes one edge of `task` back, at both ends. Says whether it left a child without a persistent
    /// parent.
    fn drop_edge(&mut self, task: TaskId, edge: OutdatedEdge) -> (parentless: bool)
        requires
            old(self).wf(),
            old(self)@.contains_key(task),
            old(self)@.contains_key(edge.target()),
            edge is Child ==> old(self)@[edge.target()].parent_count > 0,
        ensures
            final(self).wf(),
            final(self)@ == cleaned(old(self)@, task, set![edge]),
            parentless == (edge is Child && final(self)@[edge.target()].parent_count == 0),
    {
        let ghost g = self@;
        let target = edge.target_task();
        let mut t = self.take(task);
        match edge {
            OutdatedEdge::Child(child) => {
                t.children.remove(&child);
            },
            _ => {
                t.remove_dependency(edge);
            },
        }
        self.put(task, t);
        let mut x = self.take(target);
        x.modified = true;
        x.residency = Residency::Restored;
        let parentless = match edge {
            OutdatedEdge::Child(_) => {
                x.parent_count = x.parent_count - 1;
                x.parent_count == 0
            },
            _ => {
                x.dependents.remove(Dependent { task: task, edge: edge });
                false
            },
        };
        self.put(target, x);
        proof {
            let one = set![edge];
            let h = cleaned(g, task, one);
            assert(one.contains(edge));
            assert forall|y: TaskId| g.contains_key(y) implies self@[y] == h[y] by {
                assert(reached(one, y) == (y == target));
                assert(self@[y].children =~= h[y].children);
                assert(self@[y].dependencies =~= h[y].dependencies);
                assert(self@[y].dependents =~= h[y].dependents);
                assert(self@[y] =~= h[y]);
            }
            assert(self@ =~= h);
        }
        parentless
    }

    /// Takes `edges` of `task` back, at both ends, and lets go of the task's followers. Hands out the
    /// children that this leaves without a persistent parent.
    pub fn cleanup_old_edges(&mut self, task: TaskId, edges: &Vec<OutdatedEdge>) -> (parentless:
        Vec<TaskId>)
        requires
            old(self).wf(),
            graph_wf(old(self)@),
            old(self)@.contains_key(task),
            !transient(task),
            edges@.no_duplicates(),
            forall|e: OutdatedEdge| #[trigger]
                edges@.contains(e) ==> old(self)@[task].has_edge(e),
        ensures
            final(self).wf(),
            final(self)@ == unhooked(
                cleaned(old(self)@, task, edges@.to_set()),
                task,
                old(self)@[task].followers,
            ),
            parentless@.no_duplicates(),
            forall|c: TaskId| #[trigger]
                parentless@.contains(c) == (edges@.contains(OutdatedEdge::Child(c))
                    && final(self)@[c].parent_count == 0),
    {
        let ghost g = self@;
        let mut parentless: Vec<TaskId> = Vec::new();
        let mut i: usize = 0;
        assert(cleaned(g, task, Set::empty()) =~= g) by {
            lemma_clean_nothing(g, task);
        }
        assert(edges@.take(0).to_set() =~= Set::empty());
        while i < edges.len()
            invariant
                i <= edges@.len(),
                self.wf(),
                graph_wf(g),
                g.contains_key(task),
                !transient(task),
                edges@.no_duplicates(),
                forall|e: OutdatedEdge| #[trigger] edges@.contains(e) ==> g[task].has_edge(e),
                self@ == cleaned(g, task, edges@.take(i as int).to_set()),
                parentless@.no_duplicates(),
                forall|c: TaskId| #[trigger]
                    parentless@.contains(c) == (edges@.take(i as int).contains(
                        OutdatedEdge::Child(c),
                    ) && self@[c].parent_count == 0),
            decreases edges@.len() - i,
        {
            let edge = edges[i];
            let ghost seen = edges@.take(i as int);
            let ghost before = parentless@;
            let ghost h = self@;
            proof {
                assert(edges@.contains(edge));
                assert(!seen.contains(edge)) by {
                    if seen.contains(edge) {
                        let k = choose|k: int| 0 <= k < seen.len() && seen[k] == edge;
                        assert(edges@[k] == edges@[i as int]);
                    }
                }
                assert(g.contains_key(edge.target()));
                if edge is Child {
                    lemma_parents_finite(g, edge.target());
                    assert(parents(g, edge.target()).contains(task));
                    assert(parents(g, edge.target()).len() > 0) by {
                        if parents(g, edge.target()).len() == 0 {
                            parents(g, edge.target()).lemma_len0_is_empty();
                        }
                    }
                    assert(!seen.to_set().contains(edge));
                }
            }
            let zero = self.drop_edge(task, edge);
            if zero {
                parentless.push(edge.target_task());
            }
            proof {
                lemma_clean_one_more(g, task, seen.to_set(), edge);
                assert(edges@.take(i + 1) =~= seen.push(edge));
                lemma_push_set(seen, edge);
                lemma_push_contains(seen, edge);
                assert forall|c: TaskId| #[trigger] parentless@.contains(c) == (edges@.take(
                    i + 1,
                ).contains(OutdatedEdge::Child(c)) && self@[c].parent_count == 0) by {
                    if zero {
                        lemma_push_contains(before, edge.target());
                    }
                    if edge != OutdatedEdge::Child(c) {
                        if seen.contains(OutdatedEdge::Child(c)) {
                            let k = choose|k: int|
                                0 <= k < seen.len() && seen[k] == OutdatedEdge::Child(c);
                            assert(edges@[k] == OutdatedEdge::Child(c));
                            assert(edges@.contains(OutdatedEdge::Child(c)));
                            assert(g[task].has_edge(OutdatedEdge::Child(c)));
                            assert(g.contains_key(c));
                            assert(self@[c].parent_count == h[c].parent_count);
                        }
                    } else {
                        assert(!seen.contains(OutdatedEdge::Child(c)));
                    }
                }
                assert(parentless@.no_duplicates()) by {
                    if zero {
                        assert(!before.contains(edge.target()));
                    }
                }
            }
            i = i + 1;
        }
        assert(edges@.take(i as int) =~= edges@);
        let ghost h = self@;
        assert(h[task].followers == g[task].followers);
        let followers = ids(&self.get(task).unwrap().followers);
        i = 0;
        assert(unhooked(h, task, Set::empty()) =~= h) by {
            lemma_unhook_nothing(h, task);
        }
        assert(followers@.take(0).to_set() =~= Set::empty());
        while i < followers.len()
            invariant
                i <= followers@.len(),
                self.wf(),
                graph_wf(g),
                g.contains_key(task),
                h.dom() == g.dom(),
                followers@.no_duplicates(),
                followers@.to_set() == g[task].followers,
                self@ == unhooked(h, task, followers@.take(i as int).to_set()),
            decreases followers@.len() - i,
        {
            let follower = followers[i];
            let ghost seen = followers@.take(i as int);
            proof {
                assert(followers@.to_set().contains(follower));
                assert(g[task].followers.contains(follower));
                assert(!seen.contains(follower)) by {
                    if seen.contains(follower) {
                        let k = choose|k: int| 0 <= k < seen.len() && seen[k] == follower;
                        assert(followers@[k] == followers@[i as int]);
                    }
                }
            }
            self.unhook(task, follower);
            proof {
                lemma_unhook_one_more(h, task, seen.to_set(), follower);
                assert(followers@.take(i + 1) =~= seen.push(follower));
                lemma_push_set(seen, follower);
            }
            i = i + 1;
        }
        assert(followers@.take(i as int) =~= followers@);
        assert(h.dom() =~= g.dom());
        assert forall|c: TaskId| #[trigger] parentless@.contains(c) == (edges@.contains(
            OutdatedEdge::Child(c),
        ) && self@[c].parent_count == 0) by {
            if edges@.contains(OutdatedEdge::Child(c)) {
                assert(g[task].has_edge(OutdatedEdge::Child(c)));
                assert(g.contains_key(c));
                assert(self@[c].parent_count == h[c].parent_count);
            }
        }
        parentless
    }

    /// Takes `task` out of the uppers of `follower`.
    fn unhook(&mut self, task: TaskId, follower: TaskId)
        requires
            old(self).wf(),
            old(self)@.contains_key(task),
            old(self)@.contains_key(follower),
        ensures
            final(self).wf(),
            final(self)@ == unhooked(old(self)@, task, set![follower]),
    {
        let ghost g = self@;
        let mut f = self.take(follower);
        f.uppers.remove(&task);
        f.modified = true;
        f.residency = Residency::Restored;
        self.put(follower, f);
        let mut t = self.take(task);
        t.followers.remove(&follower);
        self.put(task, t);
        proof {
            let h = unhooked(g, task, set![follower]);
            assert forall|y: TaskId| g.contains_key(y) implies self@[y] == h[y] by {
                assert(self@[y].followers =~= h[y].followers);
                assert(self@[y].uppers =~= h[y].uppers);
                assert(self@[y] =~= h[y]);
            }
            assert(self@ =~= h);
        }
    }

    /// Marks `task` deleted. It stays, and the next snapshot visits it.
    pub fn mark_deleted(&mut self, task: TaskId)
        requires
            old(self).wf(),
            old(self)@.contains_key(task),
        ensures
            final(self).wf(),
            final(self)@ == marked_deleted(old(self)@, task),
    {
        let ghost g = self@;
        let mut t = self.take(task);
        t.deleted = true;
        t.modified = true;
        t.residency = Residency::Restored;
        self.put(task, t);
        assert(self@ =~= marked_deleted(g, task));
    }
}

} // verus!
