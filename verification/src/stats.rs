//! Counters and timings of a pass.
use vstd::prelude::*;
use vstd::std_specs::cmp::PartialOrdSpec;
use std::time::{Duration, Instant};
use crate::mode::GcMode;

verus! {

/// `std::time::Instant`: a moment on the machine's monotonic clock, carried through as it is.
#[verifier::external_type_specification]
#[verifier::external_body]
pub struct ExInstant(Instant);

/// `Instant::now` reads the clock. Nothing is claimed of the moment that it gives.
pub assume_specification[ Instant::now ]() -> (now: Instant)
;

/// `Instant::elapsed` measures the time since a moment. It depends on the clock, so nothing is claimed
/// of the duration that it gives.
pub assume_specification[ Instant::elapsed ](since: &Instant) -> (d: Duration)
;

/// Whether `a` is no longer than `b`, in the order of `Duration`.
pub open spec fn no_longer(a: Duration, b: Duration) -> bool {
    a.partial_cmp_spec(&b) matches Some(core::cmp::Ordering::Less | core::cmp::Ordering::Equal)
}

/// `Ord::max` on `Duration`: the longer of the two, and `measured` where neither is longer.
#[verifier::external_body]
pub(crate) fn longer_of(floor: Duration, measured: Duration) -> (longer: Duration)
    ensures
        longer == if no_longer(floor, measured) {
            measured
        } else {
            floor
        },
        no_longer(floor, longer),
        no_longer(measured, longer),
{
    floor.max(measured)
}

/// Counters and timings from one GC pass.
#[derive(Debug, Clone, Copy)]
pub struct GcPassStats {
    /// How this pass was seeded.
    pub mode: GcMode,
    /// Number of candidates the pass was seeded with (scan hits, or drained dead-list entries).
    pub seed_candidates: usize,
    /// Tasks collected (marked deleted) by this pass, including cascade discoveries.
    pub collected: usize,
    /// Candidates that are still parentless but blocked from collection for now; put back on the
    /// dead list for a later pass. Always 0 in scan mode.
    pub requeued: usize,
    /// Stale candidates dropped: resurrected since being recorded, or collected already. Always 0
    /// in scan mode.
    pub dropped_stale: usize,
    /// Time spent seeding the pass.
    pub seed_duration: Duration,
    /// Total pass time, including seeding.
    pub total_duration: Duration,
}

impl GcPassStats {
    /// The statistics of a pass that found no candidate.
    pub fn empty(mode: GcMode, seed_duration: Duration, total_duration: Duration) -> (stats: Self)
        ensures
            stats == (GcPassStats {
                mode: mode,
                seed_candidates: 0,
                collected: 0,
                requeued: 0,
                dropped_stale: 0,
                seed_duration: seed_duration,
                total_duration: total_duration,
            }),
    {
        Self {
            mode,
            seed_candidates: 0,
            collected: 0,
            requeued: 0,
            dropped_stale: 0,
            seed_duration,
            total_duration,
        }
    }

    /// The statistics of a pass that had candidates, from what was counted and measured.
    pub fn of_pass(
        mode: GcMode,
        seed_candidates: usize,
        counters: &GcCounters,
        seed_duration: Duration,
        total_duration: Duration,
    ) -> (stats: Self)
        ensures
            stats == (GcPassStats {
                mode: mode,
                seed_candidates: seed_candidates,
                collected: counters.collected,
                requeued: counters.requeued,
                dropped_stale: counters.dropped_stale,
                seed_duration: seed_duration,
                total_duration: total_duration,
            }),
    {
        Self {
            mode,
            seed_candidates,
            collected: counters.collected,
            requeued: counters.requeued,
            dropped_stale: counters.dropped_stale,
            seed_duration,
            total_duration,
        }
    }
}

/// What the jobs of one pass have come to so far.
pub struct GcCounters {
    pub collected: usize,
    pub requeued: usize,
    pub dropped_stale: usize,
}

impl GcCounters {
    /// Nothing counted yet.
    pub fn new() -> (counters: Self)
        ensures
            counters == (GcCounters { collected: 0, requeued: 0, dropped_stale: 0 }),
    {
        GcCounters { collected: 0, requeued: 0, dropped_stale: 0 }
    }
}

/// A duration is no longer than another if it is less or equal in the order of `Duration`, and not
/// otherwise.
pub proof fn law_no_longer_is_less_or_equal(a: Duration, b: Duration)
    ensures
        no_longer(a, b) <==> a.partial_cmp_spec(&b) == Some(core::cmp::Ordering::Less)
            || a.partial_cmp_spec(&b) == Some(core::cmp::Ordering::Equal),
{
}

} // verus!
