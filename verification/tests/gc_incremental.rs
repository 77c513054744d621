use turbo_gc::gc::{GcJob, TurboTasksBackend};
use turbo_gc::mode::GcMode;
use turbo_gc::stats::GcCounters;
use turbo_gc::task::{
    CellRef, CollectiblesRef, HashedCellRef, OutdatedEdge, Residency, TaskId, TRANSIENT_TASK_BIT,
};

const ROOT: TaskId = 1;
const BRANCH_A: TaskId = 10;
const LEAF_10: TaskId = 11;
const BRANCH_B: TaskId = 20;
const LEAF_20: TaskId = 21;

/// A backend with a root that is kept active.
fn rooted(gc: Option<GcMode>) -> TurboTasksBackend {
    let mut backend = TurboTasksBackend::new(gc);
    assert!(backend.storage.insert_task(ROOT));
    backend.storage.set_activity(ROOT, true, false);
    backend
}

/// Makes `child` a child and a follower of `parent`, a task of its own if there is none yet.
fn spawn(backend: &mut TurboTasksBackend, parent: TaskId, child: TaskId) {
    backend.storage.insert_task(child);
    assert!(backend.storage.link_child(parent, child));
    backend.storage.link_upper(parent, child);
}

/// Takes `child` from `parent`, with the aggregation edge.
fn cut(backend: &mut TurboTasksBackend, parent: TaskId, child: TaskId) {
    backend.disconnect_child(parent, child);
    backend.storage.unlink_upper(parent, child);
}

/// The root reads a branch that reads a leaf.
fn select(backend: &mut TurboTasksBackend, branch: TaskId, leaf: TaskId) {
    spawn(backend, ROOT, branch);
    if backend.storage.insert_task(leaf) {
        spawn(backend, branch, leaf);
    }
}

fn deleted(backend: &TurboTasksBackend, task: TaskId) -> bool {
    backend.storage.get(task).unwrap().deleted
}

fn listed(backend: &TurboTasksBackend) -> Vec<TaskId> {
    backend.gc_dead_list.iter().copied().collect()
}

#[test]
fn incremental_collects_disconnected_subtree() {
    let mut backend = rooted(Some(GcMode::Incremental));
    select(&mut backend, BRANCH_A, LEAF_10);
    select(&mut backend, BRANCH_B, LEAF_20);
    cut(&mut backend, ROOT, BRANCH_A);

    let stats = backend.gc_stats_for_testing(GcMode::Incremental);
    assert_eq!(stats.mode, GcMode::Incremental);
    assert_eq!(stats.collected, 2);
    assert_eq!(stats.seed_candidates, 1);
    assert_eq!(stats.dropped_stale, 0);
    assert!(deleted(&backend, BRANCH_A) && deleted(&backend, LEAF_10));
    assert!(!deleted(&backend, BRANCH_B) && !deleted(&backend, LEAF_20));

    let stats = backend.gc_stats_for_testing(GcMode::Incremental);
    assert_eq!((stats.seed_candidates, stats.collected), (0, 0));
}

#[test]
fn incremental_drops_resurrected_candidate() {
    let mut backend = rooted(Some(GcMode::Incremental));
    select(&mut backend, BRANCH_A, LEAF_10);
    select(&mut backend, BRANCH_B, LEAF_20);
    cut(&mut backend, ROOT, BRANCH_A);
    spawn(&mut backend, ROOT, BRANCH_A);
    cut(&mut backend, ROOT, BRANCH_B);

    let stats = backend.gc_stats_for_testing(GcMode::Incremental);
    assert_eq!(stats.collected, 2);
    assert_eq!(stats.dropped_stale, 1);
    assert_eq!(stats.requeued, 0);
    assert!(!deleted(&backend, BRANCH_A) && !deleted(&backend, LEAF_10));
    assert!(deleted(&backend, BRANCH_B) && deleted(&backend, LEAF_20));
    assert!(listed(&backend).is_empty());
}

#[test]
fn incremental_requeues_blocked_candidate() {
    let mut backend = rooted(Some(GcMode::Incremental));
    select(&mut backend, BRANCH_A, LEAF_10);
    backend.gc_pin(LEAF_10);
    cut(&mut backend, ROOT, BRANCH_A);

    let stats = backend.gc_stats_for_testing(GcMode::Incremental);
    assert_eq!((stats.collected, stats.requeued, stats.dropped_stale), (1, 1, 0));

    let stats = backend.gc_stats_for_testing(GcMode::Incremental);
    assert_eq!((stats.seed_candidates, stats.collected, stats.requeued), (1, 0, 1));

    backend.gc_unpin(LEAF_10);
    assert_eq!(listed(&backend), vec![LEAF_10]);

    let stats = backend.gc_stats_for_testing(GcMode::Incremental);
    assert_eq!((stats.seed_candidates, stats.collected), (1, 1));
    assert!(deleted(&backend, LEAF_10));
}

#[test]
fn collected_task_comes_to_life_again() {
    let mut backend = rooted(Some(GcMode::Incremental));
    select(&mut backend, BRANCH_A, LEAF_10);
    cut(&mut backend, ROOT, BRANCH_A);
    assert_eq!(backend.gc_for_testing(), 2);
    assert!(backend.storage.get(BRANCH_A).unwrap().modified);
    assert!(!backend.storage.get(BRANCH_A).unwrap().dirty);
    spawn(&mut backend, ROOT, BRANCH_A);
    assert!(!deleted(&backend, BRANCH_A));
    assert!(backend.storage.get(BRANCH_A).unwrap().dirty);
    assert!(!backend.storage.get(ROOT).unwrap().dirty);
    assert_eq!(backend.gc_for_testing(), 0);
    cut(&mut backend, ROOT, BRANCH_A);
    assert_eq!(backend.gc_for_testing(), 1);
}

#[test]
fn recording_is_off_unless_incremental() {
    for gc in [None, Some(GcMode::Scan)] {
        let mut backend = rooted(gc);
        select(&mut backend, BRANCH_A, LEAF_10);
        cut(&mut backend, ROOT, BRANCH_A);
        backend.gc_record_dead_candidate(BRANCH_A);
        assert!(listed(&backend).is_empty());
        assert_eq!(backend.gc_stats_for_testing(GcMode::Incremental).collected, 0);
        // Not configured means a scan.
        assert_eq!(backend.gc_for_testing(), 2);
    }
}

#[test]
fn transient_tasks_are_never_recorded() {
    let transient = TRANSIENT_TASK_BIT + 1;
    let mut backend = rooted(Some(GcMode::Incremental));
    backend.storage.insert_task(transient);
    backend.gc_record_dead_candidate(transient);
    assert!(listed(&backend).is_empty());
    backend.gc_record_dead_candidate(ROOT);
    assert_eq!(listed(&backend), vec![ROOT]);
}

#[test]
fn last_reference_from_a_transient_parent_is_recorded() {
    let once = TRANSIENT_TASK_BIT;
    let mut backend = rooted(Some(GcMode::Incremental));
    backend.storage.insert_task(once);
    backend.storage.insert_task(BRANCH_A);
    assert!(backend.storage.link_child(once, BRANCH_A));
    assert!(!backend.storage.link_child(once, BRANCH_A));
    assert!(backend.storage.link_child(ROOT, BRANCH_A));
    assert_eq!(backend.storage.get(BRANCH_A).unwrap().transient_ref_count, 1);
    assert_eq!(backend.storage.get(BRANCH_A).unwrap().parent_count, 1);

    // The persistent parent goes: recorded, but the transient one still holds the task.
    backend.disconnect_child(ROOT, BRANCH_A);
    assert_eq!(listed(&backend), vec![BRANCH_A]);
    let stats = backend.gc_collect(GcMode::Incremental);
    assert_eq!((stats.collected, stats.requeued), (0, 1));

    backend.disconnect_child(once, BRANCH_A);
    let stats = backend.gc_collect(GcMode::Incremental);
    assert_eq!((stats.seed_candidates, stats.collected, stats.requeued), (1, 1, 0));
}

#[test]
fn every_blocker_holds_a_task_back() {
    let mut backend = rooted(Some(GcMode::Incremental));
    select(&mut backend, BRANCH_A, LEAF_10);
    cut(&mut backend, ROOT, BRANCH_A);

    backend.storage.set_activity(BRANCH_A, true, false);
    assert_eq!(
        backend.gc_uncollectible_reason_for_testing(BRANCH_A),
        Some("active".to_string())
    );
    assert_eq!(backend.gc_for_testing(), 0);
    backend.storage.set_activity(BRANCH_A, false, true);
    assert_eq!(
        backend.gc_uncollectible_reason_for_testing(BRANCH_A),
        Some("in progress".to_string())
    );
    assert_eq!(backend.gc_for_testing(), 0);
    backend.storage.set_activity(BRANCH_A, false, false);
    backend.storage.link_upper(ROOT, BRANCH_A);
    assert_eq!(
        backend.gc_uncollectible_reason_for_testing(BRANCH_A),
        Some("upper edges".to_string())
    );
    assert_eq!(
        backend.gc_blocked_tasks_for_testing(),
        vec![
            (ROOT, "active".to_string()),
            (BRANCH_A, "upper edges".to_string()),
        ]
    );
    assert_eq!(backend.gc_for_testing(), 0);
    backend.storage.unlink_upper(ROOT, BRANCH_A);
    assert_eq!(backend.gc_uncollectible_reason_for_testing(BRANCH_A), None);
    assert_eq!(backend.gc_for_testing(), 2);
}

#[test]
fn reasons_name_every_failing_test() {
    let mut backend = rooted(Some(GcMode::Incremental));
    select(&mut backend, BRANCH_A, LEAF_10);
    backend.gc_pin(LEAF_10);
    backend.storage.set_activity(LEAF_10, true, true);
    assert_eq!(
        backend.gc_uncollectible_reason_for_testing(LEAF_10),
        Some(
            "persistent parents, transient references, active, in progress, upper edges".to_string()
        )
    );
    backend.storage.set_residency(LEAF_10, Residency::Retained);
    assert!(backend
        .gc_uncollectible_reason_for_testing(LEAF_10)
        .unwrap()
        .starts_with("not restored, persistent parents"));
    backend.storage.set_residency(LEAF_10, Residency::Disk);
    assert_eq!(
        backend.gc_uncollectible_reason_for_testing(LEAF_10),
        Some("not resident".to_string())
    );
    assert_eq!(
        backend.gc_uncollectible_reason_for_testing(999),
        Some("not resident".to_string())
    );
    assert_eq!(
        backend.gc_uncollectible_reason_for_testing(TRANSIENT_TASK_BIT),
        Some("transient id".to_string())
    );
    select(&mut backend, BRANCH_B, LEAF_20);
    cut(&mut backend, ROOT, BRANCH_B);
    backend.gc_collect(GcMode::Incremental);
    assert_eq!(
        backend.gc_uncollectible_reason_for_testing(LEAF_20),
        Some("deleted".to_string())
    );
}

#[test]
fn pins_are_counted() {
    let mut backend = rooted(Some(GcMode::Incremental));
    select(&mut backend, BRANCH_A, LEAF_10);
    assert!(!backend.storage.is_pinned(LEAF_10));
    backend.gc_pin(LEAF_10);
    backend.gc_pin(LEAF_10);
    assert_eq!(backend.storage.get(LEAF_10).unwrap().transient_ref_count, 2);
    backend.gc_unpin(LEAF_10);
    assert!(backend.storage.is_pinned(LEAF_10));
    cut(&mut backend, ROOT, BRANCH_A);
    assert_eq!(backend.gc_for_testing(), 1);
    backend.gc_unpin(LEAF_10);
    assert!(!backend.storage.is_pinned(LEAF_10));
    assert_eq!(backend.gc_for_testing(), 1);
}

#[test]
fn transient_parent_is_no_pin() {
    let once = TRANSIENT_TASK_BIT;
    let mut backend = rooted(Some(GcMode::Incremental));
    select(&mut backend, BRANCH_A, LEAF_10);
    backend.storage.insert_task(once);
    backend.storage.link_child(once, LEAF_10);
    assert!(!backend.storage.is_pinned(LEAF_10));
    backend.gc_pin(LEAF_10);
    assert!(backend.storage.is_pinned(LEAF_10));
    backend.storage.set_residency(LEAF_10, Residency::Disk);
    assert!(!backend.storage.is_pinned(LEAF_10));
    assert!(!backend.storage.is_pinned(999));
}

#[test]
fn pins_do_nothing_once_the_backend_stops() {
    let mut backend = rooted(Some(GcMode::Incremental));
    select(&mut backend, BRANCH_A, LEAF_10);
    backend.gc_pin(LEAF_10);
    backend.stopping = true;
    backend.gc_pin(LEAF_10);
    assert_eq!(backend.storage.get(LEAF_10).unwrap().transient_ref_count, 1);
    backend.gc_unpin(LEAF_10);
    backend.gc_unpin(LEAF_10);
    assert_eq!(backend.storage.get(LEAF_10).unwrap().transient_ref_count, 1);
}

#[test]
fn pins_do_nothing_for_a_task_without_an_entry() {
    let mut backend = rooted(Some(GcMode::Incremental));
    backend.gc_pin(999);
    backend.gc_unpin(999);
    assert!(backend.storage.get(999).is_none());
    select(&mut backend, BRANCH_A, LEAF_10);
    backend.storage.set_residency(LEAF_10, Residency::Disk);
    backend.gc_pin(LEAF_10);
    assert_eq!(backend.storage.get(LEAF_10).unwrap().transient_ref_count, 0);
}

#[test]
fn teardown_takes_every_edge_back() {
    let mut backend = rooted(Some(GcMode::Incremental));
    select(&mut backend, BRANCH_A, LEAF_10);
    select(&mut backend, BRANCH_B, LEAF_20);
    let cell = CellRef { task: LEAF_20, type_id: 3, index: 7 };
    let edges = [
        OutdatedEdge::OutputDependency(LEAF_20),
        OutdatedEdge::CellDependency(cell),
        OutdatedEdge::HashedCellDependency(HashedCellRef { cell, key: 42 }),
        OutdatedEdge::CollectiblesDependency(CollectiblesRef {
            task: BRANCH_B,
            collectible_type: 5,
        }),
    ];
    for edge in edges {
        backend.storage.add_dependency(BRANCH_A, edge);
    }
    assert_eq!(backend.storage.get(LEAF_20).unwrap().dependents.members().len(), 3);
    assert_eq!(backend.storage.get(BRANCH_A).unwrap().old_edges().len(), 5);
    cut(&mut backend, ROOT, BRANCH_A);
    assert_eq!(backend.gc_for_testing(), 2);
    assert_eq!(backend.storage.get(LEAF_20).unwrap().dependents.members().len(), 0);
    assert_eq!(backend.storage.get(BRANCH_B).unwrap().dependents.members().len(), 0);
    let collected = backend.storage.get(BRANCH_A).unwrap();
    assert!(collected.old_edges().is_empty());
    assert!(collected.followers.is_empty());
    assert!(backend.storage.get(LEAF_10).unwrap().uppers.is_empty());
    assert_eq!(backend.storage.get(LEAF_10).unwrap().parent_count, 0);
}

#[test]
fn one_job_hands_out_its_cascade() {
    let mut backend = rooted(Some(GcMode::Incremental));
    select(&mut backend, BRANCH_A, LEAF_10);
    spawn(&mut backend, BRANCH_A, 12);
    spawn(&mut backend, BRANCH_A, 13);
    backend.gc_pin(12);
    backend.disconnect_child(ROOT, BRANCH_A);
    let mut counters = GcCounters::new();

    // Below an upper still: it stays on the list.
    let more = backend.gc_run_job(GcJob::Collect(BRANCH_A), GcMode::Incremental, &mut counters);
    assert!(more.is_empty());
    assert_eq!((counters.collected, counters.requeued, counters.dropped_stale), (0, 1, 0));

    backend.storage.unlink_upper(ROOT, BRANCH_A);
    let more = backend.gc_run_job(GcJob::Collect(BRANCH_A), GcMode::Incremental, &mut counters);
    assert_eq!(more, vec![GcJob::Collect(LEAF_10), GcJob::Collect(13)]);
    assert_eq!((counters.collected, counters.requeued, counters.dropped_stale), (1, 2, 0));
    assert_eq!(listed(&backend), vec![BRANCH_A, 12]);

    // Collected already: dropped.
    let more = backend.gc_run_job(GcJob::Collect(BRANCH_A), GcMode::Incremental, &mut counters);
    assert!(more.is_empty());
    assert_eq!((counters.collected, counters.requeued, counters.dropped_stale), (1, 2, 1));
}

#[test]
fn marking_deleted_keeps_the_task_for_the_snapshot() {
    let mut backend = rooted(Some(GcMode::Scan));
    backend.storage.insert_task(BRANCH_A);
    backend.gc_mark_deleted(BRANCH_A);
    let task = backend.storage.get(BRANCH_A).unwrap();
    assert!(task.deleted && task.modified);
    assert_eq!(backend.storage.task_ids(), vec![ROOT, BRANCH_A]);
}

#[test]
fn pass_without_candidates_is_empty() {
    for mode in [GcMode::Scan, GcMode::Incremental] {
        let mut backend = rooted(Some(mode));
        select(&mut backend, BRANCH_A, LEAF_10);
        let stats = backend.gc_collect(mode);
        assert_eq!(stats.mode, mode);
        assert_eq!(
            (stats.seed_candidates, stats.collected, stats.requeued, stats.dropped_stale),
            (0, 0, 0, 0)
        );
        assert!(stats.seed_duration <= stats.total_duration);
    }
}

#[test]
fn transient_root_above_the_graph_does_not_matter() {
    let once = TRANSIENT_TASK_BIT;
    for mode in [GcMode::Scan, GcMode::Incremental] {
        let mut backend = rooted(Some(mode));
        backend.storage.insert_task(once);
        backend.storage.link_child(once, ROOT);
        backend.storage.link_upper(once, ROOT);
        select(&mut backend, BRANCH_A, LEAF_10);
        select(&mut backend, BRANCH_B, LEAF_20);
        cut(&mut backend, ROOT, BRANCH_A);
        // Elsewhere a cut still waits for its rebalance.
        backend.disconnect_child(ROOT, BRANCH_B);
        let stats = backend.gc_collect(mode);
        assert_eq!(stats.collected, 2);
        assert!(deleted(&backend, BRANCH_A) && deleted(&backend, LEAF_10));
        assert!(!deleted(&backend, BRANCH_B));
        backend.storage.unlink_upper(ROOT, BRANCH_B);
        assert_eq!(backend.gc_collect(mode).collected, 2);
    }
}
