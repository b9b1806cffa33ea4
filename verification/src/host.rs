//! Neutral host vocabulary: the common refusals of host calls, and time
//! observations with a deterministic model timeline.
//!
//! [`DeterministicTime`] shares one timeline between a wall clock, a
//! monotonic clock and a timer: each wall observation returns the current
//! wall value and advances it by the configured step, failing closed (and
//! leaving the timeline unchanged) when that would overflow; waiting moves
//! the monotonic clock forward to the deadline, never backward.

use vstd::prelude::*;

verus! {

/// Common host-call refusals limited to runtime mechanics.
#[derive(Clone, Copy, Debug, PartialEq, Eq)]
pub enum HostRefusal {
    /// The provider does not implement the requested operation.
    Unsupported,
    /// The call lacks authority granted by the realizing layer.
    Denied,
    /// The provider is not currently reachable or ready.
    Unavailable,
    /// The port has been intentionally paused.
    Suspended,
    /// The request is malformed for the provider contract.
    Invalid,
    /// A declared mechanical budget has been consumed.
    BudgetExhausted,
    /// The caller or runtime cancelled the operation.
    Cancelled,
    /// The provider failed without exposing unsafe internal detail.
    ProviderFault,
}

/// One observed wall-clock instant in Unix milliseconds.
#[derive(Clone, Copy, Debug, PartialEq, Eq, PartialOrd, Ord, Hash)]
pub struct WallTimestamp {
    millis: u64,
}

impl WallTimestamp {
    /// The observed Unix milliseconds.
    pub closed spec fn spec_millis(self) -> u64 {
        self.millis
    }

    /// Constructs an explicit Unix-millisecond observation.
    pub fn from_unix_millis(value: u64) -> (t: WallTimestamp)
        ensures
            t.spec_millis() == value,
    {
        WallTimestamp { millis: value }
    }

    /// Returns Unix milliseconds.
    pub fn unix_millis(self) -> (v: u64)
        ensures
            v == self.spec_millis(),
    {
        self.millis
    }
}

/// One process-local monotonic observation in nanoseconds from an injected
/// epoch.
#[derive(Clone, Copy, Debug, PartialEq, Eq, PartialOrd, Ord, Hash)]
pub struct MonotonicTimestamp {
    nanos: u64,
}

impl MonotonicTimestamp {
    /// The observed nanoseconds.
    pub closed spec fn spec_nanos(self) -> u64 {
        self.nanos
    }

    /// Constructs an explicit monotonic nanosecond value.
    pub fn from_nanos(value: u64) -> (t: MonotonicTimestamp)
        ensures
            t.spec_nanos() == value,
    {
        MonotonicTimestamp { nanos: value }
    }

    /// Returns monotonic nanoseconds.
    pub fn nanos(self) -> (v: u64)
        ensures
            v == self.spec_nanos(),
    {
        self.nanos
    }
}

/// A time observation refused because the model timeline would overflow.
#[derive(Clone, Copy, Debug, PartialEq, Eq)]
pub struct ClockOverflow;

/// Legacy zero-valued model wall clock: it performs no host observation.
#[derive(Clone, Copy, Debug, Default)]
pub struct SystemWallClock;

impl SystemWallClock {
    /// Always the Unix epoch.
    pub fn now(&self) -> (t: Result<WallTimestamp, ClockOverflow>)
        ensures
            t matches Ok(w) && w.spec_millis() == 0,
    {
        Ok(WallTimestamp::from_unix_millis(0))
    }
}

/// Deterministic wall/monotonic/timer model with one shared timeline.
#[derive(Clone, Debug)]
pub struct DeterministicTime {
    next_wall_ms: u64,
    now_ns: u64,
    wall_step_ns: u64,
}

/// The timeline, viewed.
pub struct TimelineV {
    /// The wall value the next observation returns.
    pub next_wall_ms: u64,
    /// The monotonic clock.
    pub now_ns: u64,
    /// The wall step in nanoseconds.
    pub wall_step_ns: u64,
}

/// The wall step in whole milliseconds.
pub open spec fn step_ms(t: TimelineV) -> int {
    (t.wall_step_ns / 1_000_000) as int
}

/// One wall observation: the current wall value comes back and the timeline
/// moves on by the step, or, where that would overflow, the observation is
/// refused and the timeline stays as it was.
pub open spec fn wall_observation(
    before: TimelineV,
    t: Result<WallTimestamp, ClockOverflow>,
    after: TimelineV,
) -> bool {
    let next = before.next_wall_ms + step_ms(before);
    if next > u64::MAX {
        t is Err && after == before
    } else {
        t matches Ok(w) && w.spec_millis() == before.next_wall_ms && after == TimelineV {
            next_wall_ms: next as u64,
            ..before
        }
    }
}

/// A run of wall observations: `states[k]` is the timeline before
/// observation `k`, which gave `results[k]`.
pub open spec fn wall_run(states: Seq<TimelineV>, results: Seq<Result<WallTimestamp, ClockOverflow>>) -> bool {
    &&& states.len() == results.len() + 1
    &&& forall|k: int|
        #![trigger results[k]]
        0 <= k < results.len() ==> wall_observation(states[k], results[k], states[k + 1])
}

/// Observation `k` from a timeline at `e` with a step of `s` milliseconds
/// gives `e + k * s` while `e + (k + 1) * s` fits in `u64`, and is refused
/// after that.
pub open spec fn wall_outcome(e: int, s: int, k: int, r: Result<WallTimestamp, ClockOverflow>) -> bool {
    if e + (k + 1) * s <= u64::MAX {
        r matches Ok(w) && w.spec_millis() == e + k * s
    } else {
        r is Err
    }
}

/// Over any run of wall observations from a timeline whose next value is `e`
/// and whose step is `s` milliseconds, observation `k` gives `e + k * s`
/// exactly when `e + (k + 1) * s` still fits in `u64`, and is refused
/// otherwise: once the timeline would overflow, it fails closed for good.
pub proof fn lemma_wall_run(states: Seq<TimelineV>, results: Seq<Result<WallTimestamp, ClockOverflow>>)
    requires
        wall_run(states, results),
    ensures
        forall|k: int|
            #![trigger results[k]]
            0 <= k < results.len() ==> wall_outcome(
                states[0].next_wall_ms as int,
                step_ms(states[0]),
                k,
                results[k],
            ),
{
    assert forall|k: int| 0 <= k < results.len() implies wall_outcome(
        states[0].next_wall_ms as int,
        step_ms(states[0]),
        k,
        #[trigger] results[k],
    ) by {
        let e = states[0].next_wall_ms as int;
        let s = step_ms(states[0]);
        lemma_wall_state(states, results, k);
        assert(results[k] == results[k]);
        assert((k + 1) * s == k * s + s && k * s >= 0) by (nonlinear_arith)
            requires
                k >= 0,
                s >= 0,
        ;
    }
}

/// Before observation `k`, the step is unchanged and the timeline is at
/// `e + k * s` while that fits, or stuck where the next step overflows.
proof fn lemma_wall_state(states: Seq<TimelineV>, results: Seq<Result<WallTimestamp, ClockOverflow>>, k: int)
    requires
        wall_run(states, results),
        0 <= k <= results.len(),
    ensures
        step_ms(states[k]) == step_ms(states[0]),
        states[0].next_wall_ms + k * step_ms(states[0]) <= u64::MAX ==> states[k].next_wall_ms
            == states[0].next_wall_ms + k * step_ms(states[0]),
        states[0].next_wall_ms + k * step_ms(states[0]) > u64::MAX ==> states[k].next_wall_ms
            + step_ms(states[0]) > u64::MAX,
    decreases k,
{
    if k > 0 {
        let e = states[0].next_wall_ms as int;
        let s = step_ms(states[0]);
        lemma_wall_state(states, results, k - 1);
        assert(results[k - 1] == results[k - 1]);
        assert(wall_observation(states[k - 1], results[k - 1], states[k]));
        assert(k * s == (k - 1) * s + s && (k - 1) * s >= 0) by (nonlinear_arith)
            requires
                k >= 1,
                s >= 0,
        ;
    }
}

impl View for DeterministicTime {
    type V = TimelineV;

    closed spec fn view(&self) -> TimelineV {
        TimelineV {
            next_wall_ms: self.next_wall_ms,
            now_ns: self.now_ns,
            wall_step_ns: self.wall_step_ns,
        }
    }
}

impl DeterministicTime {
    /// Creates a deterministic timeline: the first wall observation is
    /// `wall_epoch_ms`, each later one `wall_step_ms` further (the step is
    /// kept in nanoseconds, saturating); the monotonic clock starts at 0.
    pub fn new(wall_epoch_ms: u64, wall_step_ms: u64) -> (t: DeterministicTime)
        ensures
            t@.next_wall_ms == wall_epoch_ms,
            t@.now_ns == 0,
            t@.wall_step_ns == (if wall_step_ms * 1_000_000 > u64::MAX {
                u64::MAX as int
            } else {
                wall_step_ms * 1_000_000
            }),
            wall_step_ms <= u64::MAX / 1_000_000 ==> step_ms(t@) == wall_step_ms,
    {
        proof {
            if wall_step_ms <= u64::MAX / 1_000_000 {
                assert((wall_step_ms * 1_000_000) / 1_000_000 == wall_step_ms) by (nonlinear_arith);
            }
        }
        DeterministicTime {
            next_wall_ms: wall_epoch_ms,
            now_ns: 0,
            wall_step_ns: match wall_step_ms.checked_mul(1_000_000) {
                Some(ns) => ns,
                None => u64::MAX,
            },
        }
    }

    /// Observes wall time: returns the current wall value and advances it by
    /// the step; fails, leaving the timeline unchanged, on overflow.
    pub fn now(&mut self) -> (t: Result<WallTimestamp, ClockOverflow>)
        ensures
            wall_observation(old(self)@, t, final(self)@),
    {
        let step = self.wall_step_ns / 1_000_000;
        match self.next_wall_ms.checked_add(step) {
            Some(next) => {
                let current = self.next_wall_ms;
                self.next_wall_ms = next;
                Ok(WallTimestamp::from_unix_millis(current))
            },
            None => Err(ClockOverflow),
        }
    }

    /// Observes Unix milliseconds, as [`DeterministicTime::now`].
    pub fn now_ms(&mut self) -> (t: Result<u64, ClockOverflow>)
        ensures
            ({
                let s = old(self)@;
                let next = s.next_wall_ms + s.wall_step_ns / 1_000_000;
                if next > u64::MAX {
                    t is Err && final(self)@ == s
                } else {
                    t == Ok::<u64, ClockOverflow>(s.next_wall_ms) && final(self)@ == TimelineV {
                        next_wall_ms: next as u64,
                        ..s
                    }
                }
            }),
    {
        match self.now() {
            Ok(w) => Ok(w.unix_millis()),
            Err(e) => Err(e),
        }
    }

    /// Observes the monotonic clock.
    pub fn now_monotonic(&self) -> (t: MonotonicTimestamp)
        ensures
            t.spec_nanos() == self@.now_ns,
    {
        MonotonicTimestamp::from_nanos(self.now_ns)
    }

    /// Waits until `deadline`: the monotonic clock moves forward to it, or
    /// stays where it is when already past it.
    pub fn wait_until(&mut self, deadline: MonotonicTimestamp)
        ensures
            final(self)@ == (TimelineV {
                now_ns: if deadline.spec_nanos() > old(self)@.now_ns {
                    deadline.spec_nanos()
                } else {
                    old(self)@.now_ns
                },
                ..old(self)@
            }),
    {
        if deadline.nanos() > self.now_ns {
            self.now_ns = deadline.nanos();
        }
    }
}

} // verus!
