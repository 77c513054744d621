//! Tasks: their ids, their edges, and what the garbage collector reads of each.
use vstd::prelude::*;
use std::collections::BTreeSet;
use crate::vec_set::{Comparable, VecSet};

verus! {

/// A task's id. Ids from `TRANSIENT_TASK_BIT` on belong to tasks of this session only.
pub type TaskId = u32;

/// The first id of a transient task.
pub const TRANSIENT_TASK_BIT: u32 = 0x8000_0000;

/// Whether `task` lives for this session only: it is never persisted and never collected.
pub open spec fn transient(task: TaskId) -> bool {
    task >= TRANSIENT_TASK_BIT
}

/// Whether `task` lives for this session only.
pub fn is_transient(task: TaskId) -> (b: bool)
    ensures
        b == transient(task),
        b == (task >= 0x8000_0000),
{
    task >= TRANSIENT_TASK_BIT
}

/// One cell (data slot) of a task.
#[derive(Clone, Copy, Debug, PartialEq, Eq, Structural)]
pub struct CellRef {
    pub task: TaskId,
    pub type_id: u16,
    pub index: u32,
}

/// A part of a cell, picked out by a key's hash.
#[derive(Clone, Copy, Debug, PartialEq, Eq, Structural)]
pub struct HashedCellRef {
    pub cell: CellRef,
    pub key: u64,
}

/// The collectibles of one trait that a task emits.
#[derive(Clone, Copy, Debug, PartialEq, Eq, Structural)]
pub struct CollectiblesRef {
    pub task: TaskId,
    pub collectible_type: u16,
}

/// An edge that a task no longer holds: what teardown has to take back at the other end.
#[derive(Clone, Copy, Debug, PartialEq, Eq, Structural)]
pub enum OutdatedEdge {
    Child(TaskId),
    OutputDependency(TaskId),
    CellDependency(CellRef),
    HashedCellDependency(HashedCellRef),
    CollectiblesDependency(CollectiblesRef),
}

impl OutdatedEdge {
    /// The task at the other end.
    pub open spec fn target(self) -> TaskId {
        match self {
            OutdatedEdge::Child(task) => task,
            OutdatedEdge::OutputDependency(task) => task,
            OutdatedEdge::CellDependency(cell) => cell.task,
            OutdatedEdge::HashedCellDependency(hashed) => hashed.cell.task,
            OutdatedEdge::CollectiblesDependency(collectibles) => collectibles.task,
        }
    }

    /// The task at the other end.
    pub fn target_task(&self) -> (task: TaskId)
        ensures
            task == self.target(),
    {
        match *self {
            OutdatedEdge::Child(task) => task,
            OutdatedEdge::OutputDependency(task) => task,
            OutdatedEdge::CellDependency(cell) => cell.task,
            OutdatedEdge::HashedCellDependency(hashed) => hashed.cell.task,
            OutdatedEdge::CollectiblesDependency(collectibles) => collectibles.task,
        }
    }
}

/// The reverse of a dependency edge, kept at the task that is depended upon: `task` holds `edge`.
#[derive(Clone, Copy, Debug, PartialEq, Eq, Structural)]
pub struct Dependent {
    pub task: TaskId,
    pub edge: OutdatedEdge,
}

impl Comparable for TaskId {
    fn same(&self, other: &Self) -> (b: bool) {
        *self == *other
    }
}

impl Comparable for CellRef {
    fn same(&self, other: &Self) -> (b: bool) {
        *self == *other
    }
}

impl Comparable for HashedCellRef {
    fn same(&self, other: &Self) -> (b: bool) {
        *self == *other
    }
}

impl Comparable for CollectiblesRef {
    fn same(&self, other: &Self) -> (b: bool) {
        *self == *other
    }
}

impl Comparable for Dependent {
    fn same(&self, other: &Self) -> (b: bool) {
        *self == *other
    }
}

/// The members of a set of ids, each once.
pub fn ids(set: &BTreeSet<TaskId>) -> (v: Vec<TaskId>)
    ensures
        v@.no_duplicates(),
        v@.to_set() == set@,
{
    let mut v: Vec<TaskId> = Vec::new();
    for x in iter: set.iter()
        invariant
            iter.seq().unref().to_set() == set@,
            v@ == iter.seq().unref().take(iter.index()),
            iter.index() == iter.seq().len() ==> v@ == iter.seq().unref(),
    {
        v.push(*x);
        assert(v@ =~= iter.seq().unref().take(v@.len() as int));
    }
    v
}

/// Where the data of a task is.
#[derive(Clone, Copy, Debug, PartialEq, Eq, Structural)]
pub enum Residency {
    /// On disk only: the task has no entry in memory.
    Disk,
    /// The task's entry is in memory, but its data was evicted to disk.
    Retained,
    /// Everything that the collector reads of the task is in memory.
    Restored,
}

/// What the collector reads of a task, as mathematical values.
#[verifier::ext_equal]
pub struct TaskModel {
    /// How many persistent tasks list this one as a child.
    pub parent_count: nat,
    /// How many references from outside the persistent graph hold the task: edges from
    /// transient parents, and pins.
    pub transient_ref_count: nat,
    /// Whether the task is kept active (a root is active for as long as it is one).
    pub active: bool,
    /// Whether the task is executing or scheduled.
    pub in_progress: bool,
    /// Whether the task was collected; its entry stays until the next snapshot's tombstone.
    pub deleted: bool,
    /// Whether the task has to be computed anew before it is read.
    pub dirty: bool,
    /// Whether the next snapshot visits the task.
    pub modified: bool,
    pub residency: Residency,
    pub children: Set<TaskId>,
    /// The tasks, cells and collectibles that the task reads; no `Child` edge among them.
    pub dependencies: Set<OutdatedEdge>,
    /// The reverse edges of the dependencies of other tasks on this one.
    pub dependents: Set<Dependent>,
    /// The aggregation nodes above the task.
    pub uppers: Set<TaskId>,
    /// The tasks that have this one among their uppers.
    pub followers: Set<TaskId>,
}

impl TaskModel {
    /// Whether the task holds `edge`.
    pub open spec fn has_edge(self, edge: OutdatedEdge) -> bool {
        match edge {
            OutdatedEdge::Child(task) => self.children.contains(task),
            _ => self.dependencies.contains(edge),
        }
    }

    /// Whether nothing but its parents and uppers keeps the task: it is not pinned, not active,
    /// not in progress, and not collected already.
    pub open spec fn unblocked(self) -> bool {
        &&& self.transient_ref_count == 0
        &&& !self.active
        &&& !self.in_progress
        &&& !self.deleted
    }
}

/// Whether `task` can be collected: it is persistent, without a persistent parent, quiescent,
/// without a reference from outside the graph, and below no aggregation node.
pub open spec fn collectible(task: TaskId, model: TaskModel) -> bool {
    &&& !transient(task)
    &&& model.unblocked()
    &&& model.parent_count == 0
    &&& model.uppers.is_empty()
}

/// Whether `task` is garbage, if perhaps blocked for now.
pub open spec fn still_parentless(task: TaskId, model: TaskModel) -> bool {
    &&& !transient(task)
    &&& !model.deleted
    &&& model.parent_count == 0
}

/// What the collector reads of a task.
pub struct TaskStorage {
    pub parent_count: u32,
    pub transient_ref_count: u32,
    pub active: bool,
    pub in_progress: bool,
    pub deleted: bool,
    pub dirty: bool,
    pub modified: bool,
    pub residency: Residency,
    pub children: BTreeSet<TaskId>,
    pub output_dependencies: VecSet<TaskId>,
    pub cell_dependencies: VecSet<CellRef>,
    pub cell_dependencies_hashed: VecSet<HashedCellRef>,
    pub collectibles_dependencies: VecSet<CollectiblesRef>,
    pub dependents: VecSet<Dependent>,
    pub uppers: BTreeSet<TaskId>,
    pub followers: BTreeSet<TaskId>,
}

impl View for TaskStorage {
    type V = TaskModel;

    open spec fn view(&self) -> TaskModel {
        TaskModel {
            parent_count: self.parent_count as nat,
            transient_ref_count: self.transient_ref_count as nat,
            active: self.active,
            in_progress: self.in_progress,
            deleted: self.deleted,
            dirty: self.dirty,
            modified: self.modified,
            residency: self.residency,
            children: self.children@,
            dependencies: self.dependency_edges(),
            dependents: self.dependents@,
            uppers: self.uppers@,
            followers: self.followers@,
        }
    }
}

impl TaskStorage {
    /// The four kinds of dependency, each as edges.
    pub open spec fn dependency_edges(&self) -> Set<OutdatedEdge> {
        Set::new(
            |edge: OutdatedEdge|
                match edge {
                    OutdatedEdge::Child(_) => false,
                    OutdatedEdge::OutputDependency(task) => self.output_dependencies@.contains(task),
                    OutdatedEdge::CellDependency(cell) => self.cell_dependencies@.contains(cell),
                    OutdatedEdge::HashedCellDependency(hashed) => self.cell_dependencies_hashed@.contains(
                        hashed,
                    ),
                    OutdatedEdge::CollectiblesDependency(collectibles) => self.collectibles_dependencies@.contains(
                        collectibles,
                    ),
                },
        )
    }

    pub open spec fn wf(&self) -> bool {
        &&& self.output_dependencies.wf()
        &&& self.cell_dependencies.wf()
        &&& self.cell_dependencies_hashed.wf()
        &&& self.collectibles_dependencies.wf()
        &&& self.dependents.wf()
    }

    /// A task that nothing refers to yet.
    pub open spec fn fresh() -> TaskModel {
        TaskModel {
            parent_count: 0,
            transient_ref_count: 0,
            active: false,
            in_progress: false,
            deleted: false,
            dirty: false,
            modified: false,
            residency: Residency::Restored,
            children: Set::empty(),
            dependencies: Set::empty(),
            dependents: Set::empty(),
            uppers: Set::empty(),
            followers: Set::empty(),
        }
    }

    /// A task that nothing refers to yet.
    pub fn new() -> (task: Self)
        ensures
            task.wf(),
            task@ == Self::fresh(),
    {
        let task = TaskStorage {
            parent_count: 0,
            transient_ref_count: 0,
            active: false,
            in_progress: false,
            deleted: false,
            dirty: false,
            modified: false,
            residency: Residency::Restored,
            children: BTreeSet::new(),
            output_dependencies: VecSet::new(),
            cell_dependencies: VecSet::new(),
            cell_dependencies_hashed: VecSet::new(),
            collectibles_dependencies: VecSet::new(),
            dependents: VecSet::new(),
            uppers: BTreeSet::new(),
            followers: BTreeSet::new(),
        };
        assert(task@ =~= Self::fresh());
        task
    }

    /// Every edge that the task holds, once: what a teardown takes back.
    pub fn old_edges(&self) -> (edges: Vec<OutdatedEdge>)
        requires
            self.wf(),
        ensures
            edges@.no_duplicates(),
            forall|e: OutdatedEdge| #[trigger] edges@.contains(e) == self@.has_edge(e),
    {
        let mut edges: Vec<OutdatedEdge> = Vec::new();
        let children = ids(&self.children);
        let mut i: usize = 0;
        while i < children.len()
            invariant
                i <= children@.len(),
                edges@ =~= children@.take(i as int).map_values(|c: TaskId| OutdatedEdge::Child(c)),
            decreases children@.len() - i,
        {
            edges.push(OutdatedEdge::Child(children[i]));
            i = i + 1;
        }
        let ghost e1 = edges@;
        let outputs = self.output_dependencies.members();
        i = 0;
        while i < outputs.len()
            invariant
                i <= outputs@.len(),
                edges@ =~= e1 + outputs@.take(i as int).map_values(
                    |t: TaskId| OutdatedEdge::OutputDependency(t),
                ),
            decreases outputs@.len() - i,
        {
            edges.push(OutdatedEdge::OutputDependency(outputs[i]));
            i = i + 1;
        }
        let ghost e2 = edges@;
        let cells = self.cell_dependencies.members();
        i = 0;
        while i < cells.len()
            invariant
                i <= cells@.len(),
                edges@ =~= e2 + cells@.take(i as int).map_values(
                    |r: CellRef| OutdatedEdge::CellDependency(r),
                ),
            decreases cells@.len() - i,
        {
            edges.push(OutdatedEdge::CellDependency(cells[i]));
            i = i + 1;
        }
        let ghost e3 = edges@;
        let hashed = self.cell_dependencies_hashed.members();
        i = 0;
        while i < hashed.len()
            invariant
                i <= hashed@.len(),
                edges@ =~= e3 + hashed@.take(i as int).map_values(
                    |r: HashedCellRef| OutdatedEdge::HashedCellDependency(r),
                ),
            decreases hashed@.len() - i,
        {
            edges.push(OutdatedEdge::HashedCellDependency(hashed[i]));
            i = i + 1;
        }
        let ghost e4 = edges@;
        let collectibles = self.collectibles_dependencies.members();
        i = 0;
        while i < collectibles.len()
            invariant
                i <= collectibles@.len(),
                edges@ =~= e4 + collectibles@.take(i as int).map_values(
                    |r: CollectiblesRef| OutdatedEdge::CollectiblesDependency(r),
                ),
            decreases collectibles@.len() - i,
        {
            edges.push(OutdatedEdge::CollectiblesDependency(collectibles[i]));
            i = i + 1;
        }
        proof {
            let s1 = children@;
            let s2 = outputs@;
            let s3 = cells@;
            let s4 = hashed@;
            let s5 = collectibles@;
            let n1 = s1.len() as int;
            let n2 = n1 + s2.len();
            let n3 = n2 + s3.len();
            let n4 = n3 + s4.len();
            let all = edges@;
            assert forall|k: int| 0 <= k < all.len() implies #[trigger] all[k] == if k < n1 {
                OutdatedEdge::Child(s1[k])
            } else if k < n2 {
                OutdatedEdge::OutputDependency(s2[k - n1])
            } else if k < n3 {
                OutdatedEdge::CellDependency(s3[k - n2])
            } else if k < n4 {
                OutdatedEdge::HashedCellDependency(s4[k - n3])
            } else {
                OutdatedEdge::CollectiblesDependency(s5[k - n4])
            } by {}
            assert(all.len() == n4 + s5.len());
            assert forall|e: OutdatedEdge| #[trigger] all.contains(e) == self@.has_edge(e) by {
                if all.contains(e) {
                    let k = choose|k: int| 0 <= k < all.len() && all[k] == e;
                    if k < n1 {
                        assert(s1.to_set().contains(s1[k]));
                    } else if k < n2 {
                        assert(s2.to_set().contains(s2[k - n1]));
                    } else if k < n3 {
                        assert(s3.to_set().contains(s3[k - n2]));
                    } else if k < n4 {
                        assert(s4.to_set().contains(s4[k - n3]));
                    } else {
                        assert(s5.to_set().contains(s5[k - n4]));
                    }
                }
                if self@.has_edge(e) {
                    match e {
                        OutdatedEdge::Child(t) => {
                            assert(s1.to_set().contains(t));
                            let k = choose|k: int| 0 <= k < s1.len() && s1[k] == t;
                            assert(all[k] == e);
                        },
                        OutdatedEdge::OutputDependency(t) => {
                            assert(s2.to_set().contains(t));
                            let k = choose|k: int| 0 <= k < s2.len() && s2[k] == t;
                            assert(all[n1 + k] == e);
                        },
                        OutdatedEdge::CellDependency(r) => {
                            assert(s3.to_set().contains(r));
                            let k = choose|k: int| 0 <= k < s3.len() && s3[k] == r;
                            assert(all[n2 + k] == e);
                        },
                        OutdatedEdge::HashedCellDependency(r) => {
                            assert(s4.to_set().contains(r));
                            let k = choose|k: int| 0 <= k < s4.len() && s4[k] == r;
                            assert(all[n3 + k] == e);
                        },
                        OutdatedEdge::CollectiblesDependency(r) => {
                            assert(s5.to_set().contains(r));
                            let k = choose|k: int| 0 <= k < s5.len() && s5[k] == r;
                            assert(all[n4 + k] == e);
                        },
                    }
                }
            }
            assert(all.no_duplicates());
        }
        edges
    }

    /// Notes that the task reads what `edge` names.
    pub fn add_dependency(&mut self, edge: OutdatedEdge)
        requires
            old(self).wf(),
            !(edge is Child),
        ensures
            final(self).wf(),
            final(self)@ == (TaskModel {
                dependencies: old(self)@.dependencies.insert(edge),
                ..old(self)@
            }),
    {
        match edge {
            OutdatedEdge::Child(_) => {},
            OutdatedEdge::OutputDependency(task) => {
                self.output_dependencies.insert(task);
            },
            OutdatedEdge::CellDependency(cell) => {
                self.cell_dependencies.insert(cell);
            },
            OutdatedEdge::HashedCellDependency(hashed) => {
                self.cell_dependencies_hashed.insert(hashed);
            },
            OutdatedEdge::CollectiblesDependency(collectibles) => {
                self.collectibles_dependencies.insert(collectibles);
            },
        }
        assert(self@.dependencies =~= old(self)@.dependencies.insert(edge));
    }

    /// Notes that the task no longer reads what `edge` names.
    pub fn remove_dependency(&mut self, edge: OutdatedEdge)
        requires
            old(self).wf(),
        ensures
            final(self).wf(),
            final(self)@ == (TaskModel {
                dependencies: old(self)@.dependencies.remove(edge),
                ..old(self)@
            }),
    {
        match edge {
            OutdatedEdge::Child(_) => {},
            OutdatedEdge::OutputDependency(task) => {
                self.output_dependencies.remove(task);
            },
            OutdatedEdge::CellDependency(cell) => {
                self.cell_dependencies.remove(cell);
            },
            OutdatedEdge::HashedCellDependency(hashed) => {
                self.cell_dependencies_hashed.remove(hashed);
            },
            OutdatedEdge::CollectiblesDependency(collectibles) => {
                self.collectibles_dependencies.remove(collectibles);
            },
        }
        assert(self@.dependencies =~= old(self)@.dependencies.remove(edge));
    }

    /// Whether the task, of id `task`, can be collected.
    pub fn is_gc_collectible(&self, task: TaskId) -> (b: bool)
        ensures
            b == collectible(task, self@),
            b == (task < 0x8000_0000 && self.parent_count == 0 && self.transient_ref_count == 0
                && !self.active && !self.in_progress && !self.deleted && self.uppers@.is_empty()),
    {
        !is_transient(task) && self.transient_ref_count == 0 && !self.active && !self.in_progress
            && !self.deleted && self.parent_count == 0 && self.uppers.is_empty()
    }

    /// The cheap test of the scan: whether everything that decides is in memory, and the task can
    /// be collected.
    pub fn gc_maybe_collectible(&self, task: TaskId) -> (b: bool)
        ensures
            b == (self@.residency == Residency::Restored && collectible(task, self@)),
            b == (self.residency == Residency::Restored && task < 0x8000_0000 && self.parent_count == 0
                && self.transient_ref_count == 0 && !self.active && !self.in_progress
                && !self.deleted && self.uppers@.is_empty()),
    {
        self.residency == Residency::Restored && self.is_gc_collectible(task)
    }

    /// Whether the task, of id `task`, is garbage, if perhaps blocked for now.
    pub fn gc_is_still_parentless(&self, task: TaskId) -> (b: bool)
        ensures
            b == still_parentless(task, self@),
            b == (task < 0x8000_0000 && self.parent_count == 0 && !self.deleted),
    {
        !is_transient(task) && !self.deleted && self.parent_count == 0
    }
}

/// What decides whether a task can be collected, and what does not: its id, its two counts, whether it is
/// active, in progress or deleted, and its uppers. Its children, followers, dependencies and dependents
/// have no say, nor where its data is, whether it is dirty, or whether the next snapshot visits it.
pub proof fn law_what_makes_a_task_collectible(task: TaskId, m: TaskModel)
    ensures
        collectible(task, m) <==> task < 0x8000_0000 && m.parent_count == 0 && m.transient_ref_count == 0
            && !m.active && !m.in_progress && !m.deleted && (forall|u: TaskId|
            !m.uppers.contains(u)),
        still_parentless(task, m) <==> task < 0x8000_0000 && m.parent_count == 0 && !m.deleted,
        transient(task) <==> task >= 0x8000_0000,
        forall|n: TaskModel|
            n.parent_count == m.parent_count && n.transient_ref_count == m.transient_ref_count
                && n.active == m.active && n.in_progress == m.in_progress && n.deleted == m.deleted
                && n.uppers == m.uppers ==> #[trigger] collectible(task, n) == collectible(task, m),
{
}

/// What is read of a task is what its fields hold; each of the four kinds of dependency is read as an
/// edge of its own kind, and none is left out.
pub proof fn law_task_is_read_as_it_is(t: TaskStorage)
    ensures
        t@.parent_count == t.parent_count,
        t@.transient_ref_count == t.transient_ref_count,
        t@.active == t.active,
        t@.in_progress == t.in_progress,
        t@.deleted == t.deleted,
        t@.dirty == t.dirty,
        t@.modified == t.modified,
        t@.residency == t.residency,
        t@.children == t.children@,
        t@.dependents == t.dependents@,
        t@.uppers == t.uppers@,
        t@.followers == t.followers@,
        forall|x: TaskId| #[trigger]
            t.output_dependencies@.contains(x) <==> t@.dependencies.contains(
                OutdatedEdge::OutputDependency(x),
            ),
        forall|x: CellRef| #[trigger]
            t.cell_dependencies@.contains(x) <==> t@.dependencies.contains(
                OutdatedEdge::CellDependency(x),
            ),
        forall|x: HashedCellRef| #[trigger]
            t.cell_dependencies_hashed@.contains(x) <==> t@.dependencies.contains(
                OutdatedEdge::HashedCellDependency(x),
            ),
        forall|x: CollectiblesRef| #[trigger]
            t.collectibles_dependencies@.contains(x) <==> t@.dependencies.contains(
                OutdatedEdge::CollectiblesDependency(x),
            ),
        forall|x: TaskId| !(#[trigger] t@.dependencies.contains(OutdatedEdge::Child(x))),
{
}

/// A task holds each of its children and each of its dependencies as an edge, and no other.
pub proof fn law_edges_of_a_task(m: TaskModel, edge: OutdatedEdge)
    ensures
        m.has_edge(edge) <==> match edge {
            OutdatedEdge::Child(c) => m.children.contains(c),
            OutdatedEdge::OutputDependency(x) => m.dependencies.contains(edge),
            OutdatedEdge::CellDependency(x) => m.dependencies.contains(edge),
            OutdatedEdge::HashedCellDependency(x) => m.dependencies.contains(edge),
            OutdatedEdge::CollectiblesDependency(x) => m.dependencies.contains(edge),
        },
        edge.target() == match edge {
            OutdatedEdge::Child(c) => c,
            OutdatedEdge::OutputDependency(x) => x,
            OutdatedEdge::CellDependency(x) => x.task,
            OutdatedEdge::HashedCellDependency(x) => x.cell.task,
            OutdatedEdge::CollectiblesDependency(x) => x.task,
        },
{
}

/// Nothing refers to a new task, it refers to nothing, and nothing is noted of it.
pub proof fn law_new_task_is_bare()
    ensures
        ({
            let m = TaskStorage::fresh();
            &&& m.parent_count == 0
            &&& m.transient_ref_count == 0
            &&& !m.active
            &&& !m.in_progress
            &&& !m.deleted
            &&& !m.dirty
            &&& !m.modified
            &&& m.residency == Residency::Restored
            &&& m.children == Set::<TaskId>::empty()
            &&& m.dependencies == Set::<OutdatedEdge>::empty()
            &&& m.dependents == Set::<Dependent>::empty()
            &&& m.uppers == Set::<TaskId>::empty()
            &&& m.followers == Set::<TaskId>::empty()
        }),
{
}

} // verus!
