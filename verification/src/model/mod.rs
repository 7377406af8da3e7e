//! Per-second rates between two snapshots of the same counters.

pub mod eth;
pub mod net;

use vstd::prelude::*;
use crate::ethtool::types::QueueStats;
use crate::ethtool::types::QueueStatsView;

verus! {

/// Nanoseconds in one second.
pub const NANOS_PER_SEC: u128 = 1_000_000_000;

/// The time between two snapshots.
#[derive(Clone, Copy, Debug, PartialEq, Eq, Structural)]
pub struct Elapsed {
    pub nanos: u128,
}

impl Elapsed {
    /// `secs` whole seconds.
    pub fn from_secs(secs: u64) -> (e: Elapsed)
        ensures
            e.nanos == secs * 1_000_000_000,
    {
        Elapsed { nanos: secs as u128 * NANOS_PER_SEC }
    }

    /// `millis` milliseconds.
    pub fn from_millis(millis: u64) -> (e: Elapsed)
        ensures
            e.nanos == millis * 1_000_000,
    {
        Elapsed { nanos: millis as u128 * 1_000_000 }
    }

    /// `secs` whole seconds and `subsec_nanos` nanoseconds.
    pub fn new(secs: u64, subsec_nanos: u32) -> (e: Elapsed)
        ensures
            e.nanos == secs * 1_000_000_000 + subsec_nanos,
    {
        Elapsed { nanos: secs as u128 * NANOS_PER_SEC + subsec_nanos as u128 }
    }
}

/// By how much a counter rose per second while it went from `previous` to
/// `current` in `nanos` nanoseconds, rounded down and no more than a `u64`
/// holds. There is no rate where no time passed, nor where the counter fell.
pub open spec fn rate_of(current: u64, previous: u64, nanos: u128) -> Option<u64> {
    if nanos == 0 || current < previous {
        None
    } else {
        let rate = (current - previous) * 1_000_000_000 / (nanos as int);
        if rate > u64::MAX {
            Some(u64::MAX)
        } else {
            Some(rate as u64)
        }
    }
}

/// The rate of a counter that a snapshot may lack: there is one only where
/// both snapshots hold the counter.
pub open spec fn counter_rate(
    current: Option<u64>,
    previous: Option<u64>,
    nanos: u128,
) -> Option<u64> {
    match (current, previous) {
        (Some(c), Some(p)) => rate_of(c, p, nanos),
        _ => None,
    }
}

/// The rate of a counter, with or without an earlier snapshot: without one
/// there is no rate.
pub open spec fn option_rate(current: Option<u64>, last: Option<(Option<u64>, u128)>) -> Option<
    u64,
> {
    match last {
        Some((previous, nanos)) => counter_rate(current, previous, nanos),
        None => None,
    }
}

/// Computes the per-second rate of a counter between two readings.
pub fn rate_per_sec(current: u64, previous: u64, elapsed: Elapsed) -> (r: Option<u64>)
    ensures
        r == rate_of(current, previous, elapsed.nanos),
{
    if elapsed.nanos == 0 || current < previous {
        return None;
    }
    let rise: u128 = (current - previous) as u128;
    let rate: u128 = rise * NANOS_PER_SEC / elapsed.nanos;
    if rate > u64::MAX as u128 {
        Some(u64::MAX)
    } else {
        Some(rate as u64)
    }
}

/// Computes the rate of a counter that either snapshot may lack.
pub fn count_per_sec(current: Option<u64>, previous: Option<u64>, elapsed: Elapsed) -> (r: Option<
    u64,
>)
    ensures
        r == counter_rate(current, previous, elapsed.nanos),
{
    match (current, previous) {
        (Some(c), Some(p)) => rate_per_sec(c, p, elapsed),
        _ => None,
    }
}

/// Computes the rate of a counter, with or without an earlier snapshot.
pub fn get_option_rate(current: Option<u64>, last: Option<(Option<u64>, Elapsed)>) -> (r: Option<
    u64,
>)
    ensures
        r == option_rate(
            current,
            match last {
                Some((previous, elapsed)) => Some((previous, elapsed.nanos)),
                None => None,
            },
        ),
{
    match last {
        Some((previous, elapsed)) => count_per_sec(current, previous, elapsed),
        None => None,
    }
}

/// How the per-queue sequences of two snapshots of one interface stand to
/// each other.
#[derive(Clone, Copy, Debug, PartialEq, Eq, Structural)]
pub enum QueuePairing {
    /// Both snapshots hold queues, and as many.
    Matched,
    /// Only the earlier snapshot holds queues.
    MissingInCurrent,
    /// Only the later snapshot holds queues.
    MissingInPrevious,
    /// Neither snapshot holds queues.
    MissingInBoth,
    /// Both hold queues, but not as many.
    LengthMismatch,
}

/// How per-queue sequences of the given presence and lengths stand to each
/// other.
pub open spec fn pairing_of(current: Option<nat>, previous: Option<nat>) -> QueuePairing {
    match (current, previous) {
        (Some(c), Some(p)) => if c == p {
            QueuePairing::Matched
        } else {
            QueuePairing::LengthMismatch
        },
        (Some(_), None) => QueuePairing::MissingInPrevious,
        (None, Some(_)) => QueuePairing::MissingInCurrent,
        (None, None) => QueuePairing::MissingInBoth,
    }
}

/// How many queues a snapshot holds for a NIC, if it holds any.
pub open spec fn queue_count(queue: Option<Seq<QueueStatsView>>) -> Option<nat> {
    match queue {
        Some(queues) => Some(queues.len()),
        None => None,
    }
}

/// Tells how the per-queue sequences of two snapshots of one NIC stand to
/// each other.
pub fn pair_queues(current: &Option<Vec<QueueStats>>, previous: &Option<Vec<QueueStats>>) -> (r:
    QueuePairing)
    ensures
        r == pairing_of(queue_count(current.deep_view()), queue_count(previous.deep_view())),
{
    match (current, previous) {
        (Some(c), Some(p)) => if c.len() == p.len() {
            QueuePairing::Matched
        } else {
            QueuePairing::LengthMismatch
        },
        (Some(_), None) => QueuePairing::MissingInPrevious,
        (None, Some(_)) => QueuePairing::MissingInCurrent,
        (None, None) => QueuePairing::MissingInBoth,
    }
}

} // verus!
