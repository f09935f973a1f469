//! Sizes one output route's elastic cushion: the latency it rests at
//! between the producer (the chain DSP) and its output callback.
//!
//! - Never born above its rest: a route fed by a convolver is primed with
//!   exactly its own resting cushion.
//! - The convolver cushion only where the clocks differ: on its producer's
//!   own device clock a convolver-fed route rests at its lean target; on
//!   another device the two clocks drift and the route keeps
//!   [`IR_COLD_START_CUSHION_FRAMES`].
//! - Another rate, another owner: a route at another rate rests
//!   [`CROSS_RATE_CUSHION`] times deeper and its level is held by the
//!   resampler's servo.
use vstd::prelude::*;

verus! {

/// How much deeper a cross-rate route's cushion is.
pub const CROSS_RATE_CUSHION: usize = 3;

/// The cushion a convolver-fed route keeps when it runs on another clock
/// than its producer.
pub const IR_COLD_START_CUSHION_FRAMES: usize = 512;

/// How one output route is built.
#[derive(Debug, Clone, Copy, PartialEq, Eq, Structural)]
pub struct RouteCushion {
    /// Frames the route rests at between producer and consumer.
    pub target: usize,
    /// Frames the ring can hold.
    pub capacity: usize,
    /// Silence a fresh route starts with, never more than `target`.
    pub prime: usize,
    /// The resampler servo owns the level; the drift guard stays off.
    pub servo_owned: bool,
}

pub open spec fn sat_mul(a: int, b: int) -> int {
    if a * b <= usize::MAX { a * b } else { usize::MAX as int }
}

/// `a * b`, or the largest `usize` when that does not fit.
pub fn saturating_mul(a: usize, b: usize) -> (r: usize)
    ensures
        r == sat_mul(a as int, b as int),
{
    match a.checked_mul(b) {
        Some(x) => x,
        None => usize::MAX,
    }
}

/// The cushion of a route whose same-clock target is `lockstep_target`,
/// with `cross_rate` when the route's device runs at another rate than the
/// chain, `fed_by_convolver` when an IR/cab convolver feeds it and
/// `on_producer_clock` when its output device is its producer's input
/// device.
pub open spec fn route_cushion_spec(
    lockstep_target: int,
    cross_rate: bool,
    fed_by_convolver: bool,
    on_producer_clock: bool,
) -> RouteCushion {
    let lockstep = if fed_by_convolver && !on_producer_clock && lockstep_target
        < IR_COLD_START_CUSHION_FRAMES {
        IR_COLD_START_CUSHION_FRAMES as int
    } else {
        lockstep_target
    };
    let target = if cross_rate { sat_mul(lockstep, CROSS_RATE_CUSHION as int) } else { lockstep };
    RouteCushion {
        target: target as usize,
        capacity: sat_mul(target, 2) as usize,
        prime: (if fed_by_convolver { target } else if lockstep <= target { target - lockstep } else { 0 }) as usize,
        servo_owned: cross_rate,
    }
}

/// Shared by the initial build and the live rebuild, so a rebuilt route is
/// sized exactly like the one it replaces. Whether the two rates differ is
/// decided by the caller.
pub fn route_cushion(
    lockstep_target: usize,
    cross_rate: bool,
    fed_by_convolver: bool,
    on_producer_clock: bool,
) -> (r: RouteCushion)
    ensures
        r == route_cushion_spec(lockstep_target as int, cross_rate, fed_by_convolver, on_producer_clock),
        r.prime <= r.target,
        r.target >= lockstep_target,
{
    let lockstep = if fed_by_convolver && !on_producer_clock {
        if lockstep_target >= IR_COLD_START_CUSHION_FRAMES {
            lockstep_target
        } else {
            IR_COLD_START_CUSHION_FRAMES
        }
    } else {
        lockstep_target
    };
    let target = if cross_rate {
        saturating_mul(lockstep, CROSS_RATE_CUSHION)
    } else {
        lockstep
    };
    let prime = if fed_by_convolver {
        target
    } else {
        target - if lockstep <= target {
            lockstep
        } else {
            target
        }
    };
    RouteCushion { target, capacity: saturating_mul(target, 2), prime, servo_owned: cross_rate }
}

/// A route is never born above its rest, and its ring always holds at
/// least its cushion.
pub proof fn law_cushion_never_born_above_rest(
    lockstep_target: usize,
    cross_rate: bool,
    fed_by_convolver: bool,
    on_producer_clock: bool,
)
    ensures
        ({
            let c = route_cushion_spec(lockstep_target as int, cross_rate, fed_by_convolver, on_producer_clock);
            &&& c.prime <= c.target
            &&& c.target <= c.capacity
            &&& !cross_rate && (!fed_by_convolver || on_producer_clock) ==> c.target == lockstep_target
            &&& fed_by_convolver ==> c.prime == c.target
            &&& c.servo_owned == cross_rate
        }),
{
}

/// A route never rests below its own lockstep target. At the chain's rate
/// a convolver-fed route off its producer's clock rests at the larger of
/// its lockstep target and [`IR_COLD_START_CUSHION_FRAMES`]; any other
/// same-rate route rests exactly at its lockstep target. Another rate makes
/// the cushion [`CROSS_RATE_CUSHION`] times that (as far as a `usize`
/// reaches), and the ring holds twice the cushion (as far as a `usize`
/// reaches).
pub proof fn law_cushion_covers_lockstep(
    lockstep_target: usize,
    cross_rate: bool,
    fed_by_convolver: bool,
    on_producer_clock: bool,
)
    ensures
        ({
            let c = route_cushion_spec(lockstep_target as int, cross_rate, fed_by_convolver, on_producer_clock);
            let same = route_cushion_spec(lockstep_target as int, false, fed_by_convolver, on_producer_clock);
            &&& c.target >= lockstep_target
            &&& fed_by_convolver && !on_producer_clock ==> same.target >= IR_COLD_START_CUSHION_FRAMES
            &&& fed_by_convolver && !on_producer_clock ==> same.target == (if lockstep_target
                >= IR_COLD_START_CUSHION_FRAMES {
                lockstep_target
            } else {
                IR_COLD_START_CUSHION_FRAMES
            })
            &&& !(fed_by_convolver && !on_producer_clock) ==> same.target == lockstep_target
            &&& cross_rate ==> (c.target == same.target * CROSS_RATE_CUSHION || c.target == usize::MAX)
            &&& cross_rate ==> c.target >= same.target
            &&& (c.capacity == c.target * 2 || c.capacity == usize::MAX)
            &&& c.capacity >= c.target
        }),
{
}

} // verus!
