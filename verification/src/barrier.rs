//! Failure barrier for cross-device step synchronization.
//!
//! When several devices run the same flow in parallel, a failure barrier lets
//! them coordinate: if one device fails at global step N, the others keep
//! going until they complete step N, then stop. A barrier is created fresh
//! for every flow and cloned into that flow's per-device tasks; clones share
//! one recorded failure point, separate barriers share nothing.
//!
//! The recorded point is a shared atomic that any clone may lower at any
//! time, so the methods' contracts do not relate a query to earlier
//! reports. A query's contract says that its answer is the decision
//! (`stops_at`, `failure_point_of`) on the value it read, whatever that
//! value was; `new` and `report_failure` carry no contract. The stored
//! value is described by a model (`spec_no_failure`, `spec_after_report`,
//! `spec_should_stop`, `spec_failure_point`), and the laws below are laws
//! of that model.
use std::sync::atomic::{AtomicU64, Ordering};
use std::sync::Arc;
use vstd::prelude::*;

verus! {

/// The stored value that means "no failure recorded".
pub open spec fn spec_no_failure() -> u64 {
    u64::MAX
}

/// Whether a device at `step_count` stops, given the stored failure point.
pub open spec fn spec_should_stop(stored: u64, step_count: u64) -> bool {
    stored != spec_no_failure() && step_count >= stored
}

/// The failure point a stored value denotes.
pub open spec fn spec_failure_point(stored: u64) -> Option<u64> {
    if stored == spec_no_failure() {
        None
    } else {
        Some(stored)
    }
}

/// The stored value after a failure is reported at `step_count`: the
/// earliest reported step wins.
pub open spec fn spec_after_report(stored: u64, step_count: u64) -> u64 {
    if step_count < stored {
        step_count
    } else {
        stored
    }
}

/// Whether a device at `step_count` stops, given the stored failure point
/// (`u64::MAX` when none).
pub fn stops_at(stored: u64, step_count: u64) -> (r: bool)
    ensures
        r == spec_should_stop(stored, step_count),
{
    stored != u64::MAX && step_count >= stored
}

/// The failure point a stored value denotes (`u64::MAX` means none).
pub fn failure_point_of(stored: u64) -> (r: Option<u64>)
    ensures
        r == spec_failure_point(stored),
{
    if stored == u64::MAX {
        None
    } else {
        Some(stored)
    }
}

/// Shared failure barrier for parallel device execution.
#[derive(Clone)]
pub struct FailureBarrier {
    /// The global step count of the first failure; `u64::MAX` means none.
    failed_at: Arc<AtomicU64>,
}

impl FailureBarrier {
    /// A new barrier with no failure recorded (`spec_no_failure` in the
    /// model; the contract says nothing of the shared value).
    pub fn new() -> (r: Self) {
        FailureBarrier { failed_at: Arc::new(AtomicU64::new(u64::MAX)) }
    }

    /// Report a failure at the given global step count; the lowest reported
    /// step count is kept (`spec_after_report` in the model; the contract
    /// says nothing of the shared value).
    pub fn report_failure(&self, step_count: u64) {
        let _ = self.failed_at.fetch_min(step_count, Ordering::Release);
    }

    /// Whether this device, having completed `step_count` steps, should stop
    /// because some device failed at or before that step.
    ///
    /// The stored failure point is shared with every clone and can be lowered
    /// by another device at any moment, so the contract does not fix which
    /// value was read: the answer is [`stops_at`] of the value read, and
    /// `stops_at` carries the exact decision.
    pub fn should_stop(&self, step_count: u64) -> (r: bool)
        ensures
            exists|stored: u64| r == spec_should_stop(stored, step_count),
    {
        let stored = self.failed_at.load(Ordering::Acquire);
        stops_at(stored, step_count)
    }

    /// Whether any failure has been recorded (the value read is shared with
    /// the barrier's clones; see [`failure_point_of`] for the decision).
    pub fn has_failure(&self) -> (r: bool)
        ensures
            exists|stored: u64| r == (spec_failure_point(stored) is Some),
    {
        let stored = self.failed_at.load(Ordering::Acquire);
        failure_point_of(stored).is_some()
    }

    /// The step count of the first failure, if any (the value read is shared
    /// with the barrier's clones; see [`failure_point_of`] for the decision).
    pub fn failure_point(&self) -> (r: Option<u64>)
        ensures
            exists|stored: u64| r == spec_failure_point(stored),
            r != Some(u64::MAX),
    {
        let stored = self.failed_at.load(Ordering::Acquire);
        failure_point_of(stored)
    }
}

impl Default for FailureBarrier {
    fn default() -> (r: Self) {
        FailureBarrier::new()
    }
}

/// In the model of the stored value: the fresh value records no failure
/// and stops no device, at any step.
pub proof fn lemma_fresh_barrier_never_stops(step_count: u64)
    ensures
        !spec_should_stop(spec_no_failure(), step_count),
        spec_failure_point(spec_no_failure()) is None,
{
}

/// In the model of the stored value: the earliest failure wins whatever
/// the order of the reports; two reports commute, and repeating a report
/// changes nothing.
pub proof fn lemma_reports_commute(stored: u64, a: u64, b: u64)
    ensures
        spec_after_report(spec_after_report(stored, a), b) == spec_after_report(
            spec_after_report(stored, b),
            a,
        ),
        spec_after_report(spec_after_report(stored, a), a) == spec_after_report(stored, a),
{
}

/// In the model of the stored value: after failures at `a` then `b` on the
/// fresh value, the failure point is the earlier of the two.
pub proof fn lemma_earliest_failure_point(a: u64, b: u64)
    requires
        a < u64::MAX,
        b < u64::MAX,
    ensures
        spec_failure_point(spec_after_report(spec_after_report(spec_no_failure(), a), b)) == Some(
            if a <= b {
                a
            } else {
                b
            },
        ),
{
}

/// In the model of the stored value: after a failure at `k` on the fresh
/// value, a device stops exactly from step `k` on and keeps going before it.
pub proof fn lemma_stops_from_failure_point(k: u64, step_count: u64)
    requires
        k < u64::MAX,
    ensures
        spec_should_stop(spec_after_report(spec_no_failure(), k), step_count) <==> step_count >= k,
{
}

/// In the model of the stored value: once a device would stop at a step, it
/// would stop at every later step.
pub proof fn lemma_stop_is_monotone(stored: u64, n: u64, m: u64)
    requires
        n <= m,
        spec_should_stop(stored, n),
    ensures
        spec_should_stop(stored, m),
{
}

} // verus!
