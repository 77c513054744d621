use std::time::Duration;
use turbo_gc::gc::TurboTasksBackend;
use turbo_gc::mode::GcMode;
use turbo_gc::stats::{GcCounters, GcPassStats};
use turbo_gc::task::{Residency, TaskId};

const ROOT: TaskId = 1;
const MODES: [GcMode; 2] = [GcMode::Scan, GcMode::Incremental];

/// A backend with a root that is kept active.
fn rooted(mode: GcMode) -> TurboTasksBackend {
    let mut backend = TurboTasksBackend::new(Some(mode));
    assert!(backend.storage.insert_task(ROOT));
    backend.storage.set_activity(ROOT, true, false);
    backend
}

/// Makes `child` a child and a follower of `parent`, a task of its own if there is none yet.
fn spawn(backend: &mut TurboTasksBackend, parent: TaskId, child: TaskId) {
    backend.storage.insert_task(child);
    assert!(backend.storage.link_child(parent, child));
    backend.storage.link_upper(parent, child);
}

/// Takes `child` from `parent`, with the aggregation edge.
fn cut(backend: &mut TurboTasksBackend, parent: TaskId, child: TaskId) {
    backend.disconnect_child(parent, child);
    backend.storage.unlink_upper(parent, child);
}

fn deleted(backend: &TurboTasksBackend, task: TaskId) -> bool {
    backend.storage.get(task).unwrap().deleted
}

fn live(backend: &TurboTasksBackend) -> usize {
    backend
        .storage
        .task_ids()
        .into_iter()
        .filter(|task| !deleted(backend, *task))
        .count()
}

#[test]
fn compare_churn_with_live_ballast() {
    const CHURN: u32 = 128;
    const ROUNDS: u32 = 6;
    for ballast in [1_000u32, 8_000] {
        let mut totals = Vec::new();
        for mode in MODES {
            let mid = |round: u32, index: u32| 100_000 + round * 1_000 + 2 * index;
            let mut backend = rooted(mode);
            for index in 0..ballast {
                spawn(&mut backend, ROOT, 1_000 + index);
            }
            let mut total_collected = 0usize;
            for round in 0..=ROUNDS {
                for index in 0..CHURN {
                    spawn(&mut backend, ROOT, mid(round, index));
                    spawn(&mut backend, mid(round, index), mid(round, index) + 1);
                }
                if round == 0 {
                    continue;
                }
                for index in 0..CHURN {
                    cut(&mut backend, ROOT, mid(round - 1, index));
                }
                let stats = backend.gc_stats_for_testing(mode);
                total_collected += stats.collected;
                if mode == GcMode::Incremental {
                    assert!(stats.seed_candidates <= 2 * CHURN as usize);
                }
                assert_eq!(stats.seed_candidates, CHURN as usize);
                assert_eq!(stats.collected, 2 * CHURN as usize);
            }
            assert_eq!(live(&backend), 1 + ballast as usize + 2 * CHURN as usize);
            totals.push(total_collected);
        }
        assert_eq!(totals[0], totals[1]);
        let expected_min = (2 * CHURN as usize * ROUNDS as usize) / 2;
        assert!(totals[0] >= expected_min);
    }
}

#[test]
fn compare_deep_chain() {
    const DEPTH: u32 = 300;
    const ROUNDS: u32 = 3;
    let head = |round: u32| 1_000 * (round + 1);
    let mut totals = Vec::new();
    for mode in MODES {
        let mut backend = rooted(mode);
        let mut total_collected = 0usize;
        for round in 0..=ROUNDS {
            spawn(&mut backend, ROOT, head(round));
            for link in 0..DEPTH {
                spawn(&mut backend, head(round) + link, head(round) + link + 1);
            }
            if round == 0 {
                continue;
            }
            cut(&mut backend, ROOT, head(round - 1));
            let stats = backend.gc_stats_for_testing(mode);
            total_collected += stats.collected;
            assert_eq!(stats.collected, DEPTH as usize + 1);
            if mode == GcMode::Incremental {
                assert!(stats.seed_candidates <= 4);
            }
        }
        totals.push(total_collected);
    }
    assert_eq!(totals[0], totals[1]);
    assert!(totals[0] >= (DEPTH as usize) * (ROUNDS as usize));
}

#[test]
fn compare_diamond_shared_deps() {
    const ROUNDS: u32 = 4;
    const LIVE_LEAF: TaskId = 2;
    let base = |round: u32| 100 * (round + 1);
    let mut totals = Vec::new();
    for mode in MODES {
        let mut backend = rooted(mode);
        spawn(&mut backend, ROOT, LIVE_LEAF);
        let mut total_collected = 0usize;
        for round in 0..=ROUNDS {
            for side in [1, 2] {
                spawn(&mut backend, ROOT, base(round) + side);
                spawn(&mut backend, base(round) + side, base(round));
            }
            spawn(&mut backend, base(round), LIVE_LEAF);
            if round == 0 {
                continue;
            }
            cut(&mut backend, ROOT, base(round - 1) + 1);
            cut(&mut backend, ROOT, base(round - 1) + 2);
            let stats = backend.gc_stats_for_testing(mode);
            total_collected += stats.collected;
            assert_eq!(stats.dropped_stale, 0);
            assert!(!deleted(&backend, LIVE_LEAF));
            assert_eq!(backend.storage.get(LIVE_LEAF).unwrap().parent_count, 2);
        }
        totals.push(total_collected);
    }
    assert_eq!(totals[0], totals[1]);
    assert_eq!(totals[0], 3 * ROUNDS as usize);
}

#[test]
fn compare_wide_fanout() {
    const WIDTH: u32 = 5_000;
    let mut totals = Vec::new();
    for mode in MODES {
        let mut backend = rooted(mode);
        for index in 0..WIDTH {
            spawn(&mut backend, ROOT, 10_000 + index);
        }
        for index in 0..WIDTH {
            spawn(&mut backend, ROOT, 20_000 + index);
            cut(&mut backend, ROOT, 10_000 + index);
        }
        let stats = backend.gc_stats_for_testing(mode);
        assert!(stats.collected >= WIDTH as usize / 2);
        assert_eq!(stats.collected, WIDTH as usize);
        totals.push(stats.collected);
    }
    assert_eq!(totals[0], totals[1]);
}

#[test]
fn one_task_with_many_children_is_torn_down_at_once() {
    const WIDTH: u32 = 5_000;
    for mode in MODES {
        let mut backend = rooted(mode);
        spawn(&mut backend, ROOT, 2);
        for index in 0..WIDTH {
            spawn(&mut backend, 2, 10_000 + index);
        }
        cut(&mut backend, ROOT, 2);
        let stats = backend.gc_stats_for_testing(mode);
        assert_eq!((stats.seed_candidates, stats.collected), (1, WIDTH as usize + 1));
        // The total includes the seeding, and the teardown takes its time.
        assert!(stats.seed_duration < stats.total_duration);
    }
}

#[test]
fn incremental_collects_evicted_blocked_garbage_scan_cannot() {
    const MID: TaskId = 2;
    const HOLDER: TaskId = 3;
    let mut collected_by_mode = Vec::new();
    for mode in MODES {
        let mut backend = rooted(mode);
        spawn(&mut backend, ROOT, MID);
        spawn(&mut backend, MID, HOLDER);
        backend.gc_pin(HOLDER);
        cut(&mut backend, ROOT, MID);

        let stats = backend.gc_stats_for_testing(mode);
        assert_eq!(stats.collected, 1);
        assert_eq!(stats.requeued, if mode == GcMode::Incremental { 1 } else { 0 });

        backend.storage.set_residency(HOLDER, Residency::Retained);
        backend.gc_unpin(HOLDER);

        let stats = backend.gc_stats_for_testing(mode);
        collected_by_mode.push(stats.collected);
    }
    assert_eq!(collected_by_mode[0], 0);
    assert_eq!(collected_by_mode[1], 1);
}

#[test]
fn dead_list_reaches_tasks_on_disk() {
    let mut backend = rooted(GcMode::Incremental);
    spawn(&mut backend, ROOT, 2);
    spawn(&mut backend, 2, 3);
    cut(&mut backend, ROOT, 2);
    backend.storage.set_residency(2, Residency::Disk);
    backend.storage.set_residency(3, Residency::Disk);
    assert_eq!(backend.gc_collect(GcMode::Scan).collected, 0);
    let stats = backend.gc_collect(GcMode::Incremental);
    assert_eq!((stats.seed_candidates, stats.collected), (1, 2));
    assert_eq!(backend.storage.get(2).unwrap().residency, Residency::Restored);
}

#[test]
fn scan_leaves_the_dead_list_alone() {
    let mut backend = rooted(GcMode::Incremental);
    spawn(&mut backend, ROOT, 2);
    cut(&mut backend, ROOT, 2);
    let stats = backend.gc_collect(GcMode::Scan);
    assert_eq!((stats.seed_candidates, stats.collected), (1, 1));
    assert_eq!((stats.requeued, stats.dropped_stale), (0, 0));
    // What the scan collected is stale to the next incremental pass.
    let stats = backend.gc_collect(GcMode::Incremental);
    assert_eq!((stats.seed_candidates, stats.collected, stats.dropped_stale), (1, 0, 1));
}

#[test]
fn every_candidate_is_counted_once() {
    let mut backend = rooted(GcMode::Incremental);
    // Collected, with a child that is pinned and one that is shared.
    spawn(&mut backend, ROOT, 10);
    spawn(&mut backend, 10, 11);
    spawn(&mut backend, 10, 12);
    spawn(&mut backend, ROOT, 12);
    backend.gc_pin(11);
    // Resurrected.
    spawn(&mut backend, ROOT, 20);
    // Blocked.
    spawn(&mut backend, ROOT, 30);
    backend.gc_pin(30);
    for task in [10, 20, 30] {
        cut(&mut backend, ROOT, task);
    }
    spawn(&mut backend, ROOT, 20);
    let stats = backend.gc_collect(GcMode::Incremental);
    assert_eq!(stats.seed_candidates, 3);
    assert_eq!((stats.collected, stats.requeued, stats.dropped_stale), (1, 2, 1));
    assert_eq!(backend.gc_dead_list.iter().copied().collect::<Vec<_>>(), vec![11, 30]);
}

#[test]
fn churn_with_shared_leaves_settles() {
    const LANES: u32 = 4;
    const LEAVES: u32 = 12;
    const CHAIN: u32 = 20;
    const SHARED: u32 = 6;
    const ROUNDS: u32 = 24;
    for mode in MODES {
        let mut backend = rooted(mode);
        let mid = |generation: u32, lane: u32| 10_000 * (generation + 1) + 1_000 * lane;
        let shared = |generation: u32, index: u32| 100 + 10 * (generation % 3) + index;
        for generation in 0..=ROUNDS {
            for lane in 0..LANES {
                let top = mid(generation, lane);
                spawn(&mut backend, ROOT, top);
                for index in 0..LEAVES {
                    spawn(&mut backend, top, top + 1 + index);
                }
                for index in 0..SHARED {
                    spawn(&mut backend, top, shared(generation, index));
                }
                let chain = top + 100;
                spawn(&mut backend, top, chain);
                for link in 0..CHAIN {
                    spawn(&mut backend, chain + link, chain + link + 1);
                }
            }
            if generation > 0 {
                for lane in 0..LANES {
                    cut(&mut backend, ROOT, mid(generation - 1, lane));
                }
                let stats = backend.gc_collect(mode);
                let expected = LANES * (LEAVES + CHAIN + 2) + SHARED;
                assert_eq!(stats.collected, expected as usize);
            }
        }
        let expected = 1 + LANES * (LEAVES + CHAIN + 2) + SHARED;
        assert_eq!(live(&backend), expected as usize);
    }
}

#[test]
fn parentless_tasks_stay_on_the_dead_list_until_collected() {
    let mut backend = rooted(GcMode::Incremental);
    spawn(&mut backend, ROOT, 2);
    spawn(&mut backend, 2, 3);
    spawn(&mut backend, 3, 4);
    for task in [2, 3, 4] {
        backend.gc_pin(task);
    }
    cut(&mut backend, ROOT, 2);
    for task in [2, 3, 4] {
        let stats = backend.gc_collect(GcMode::Incremental);
        assert_eq!((stats.seed_candidates, stats.collected, stats.requeued), (1, 0, 1));
        backend.gc_unpin(task);
        let stats = backend.gc_collect(GcMode::Incremental);
        assert_eq!((stats.seed_candidates, stats.collected), (1, 1));
        assert_eq!(stats.requeued, if task == 4 { 0 } else { 1 });
        assert!(deleted(&backend, task));
    }
    assert!(backend.gc_dead_list.is_empty());
}

#[test]
fn empty_stats() {
    let stats = GcPassStats::empty(
        GcMode::Scan,
        Duration::from_millis(3),
        Duration::from_millis(5),
    );
    assert_eq!(stats.mode, GcMode::Scan);
    assert_eq!(
        (stats.seed_candidates, stats.collected, stats.requeued, stats.dropped_stale),
        (0, 0, 0, 0)
    );
    assert_eq!(stats.seed_duration, Duration::from_millis(3));
    assert_eq!(stats.total_duration, Duration::from_millis(5));
}

#[test]
fn stats_of_a_pass() {
    let counters = GcCounters { collected: 7, requeued: 2, dropped_stale: 1 };
    let stats = GcPassStats::of_pass(
        GcMode::Incremental,
        4,
        &counters,
        Duration::from_millis(3),
        Duration::from_millis(5),
    );
    assert_eq!(stats.mode, GcMode::Incremental);
    assert_eq!(
        (stats.seed_candidates, stats.collected, stats.requeued, stats.dropped_stale),
        (4, 7, 2, 1)
    );
    assert_eq!(stats.seed_duration, Duration::from_millis(3));
    assert_eq!(stats.total_duration, Duration::from_millis(5));
}

#[test]
fn seeding_lies_within_the_total() {
    for mode in MODES {
        let mut backend = rooted(mode);
        for task in 2..50 {
            spawn(&mut backend, ROOT, task);
        }
        for task in 2..50 {
            cut(&mut backend, ROOT, task);
        }
        let stats = backend.gc_stats_for_testing(mode);
        assert_eq!(stats.collected, 48);
        assert!(stats.seed_duration <= stats.total_duration);
    }
}

#[test]
fn seeds_are_at_most_what_was_cut() {
    let mut backend = rooted(GcMode::Incremental);
    for task in 2..1_000 {
        spawn(&mut backend, ROOT, task);
        spawn(&mut backend, task, 10_000 + task);
    }
    assert_eq!(backend.gc_collect(GcMode::Incremental).seed_candidates, 0);
    for cuts in 1..5 {
        for task in 0..cuts {
            cut(&mut backend, ROOT, 100 * cuts + task);
        }
        // Cutting a child that another task still holds records nothing.
        backend.storage.link_child(2, 10_003);
        backend.disconnect_child(2, 10_003);
        let stats = backend.gc_collect(GcMode::Incremental);
        assert_eq!(stats.seed_candidates, cuts as usize);
        assert_eq!(stats.collected, 2 * cuts as usize);
    }
}
