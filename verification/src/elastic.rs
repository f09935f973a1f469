//! Sizing of the elastic buffers that carry a chain's frames to each output
//! route.
use vstd::prelude::*;
use crate::route_cushion::{sat_mul, saturating_mul};

verus! {

/// The smallest cushion any route rests at, in frames.
pub const ELASTIC_TARGET_FLOOR: usize = 64;

/// The cushion of a route the caller gave no target for.
pub const DEFAULT_ELASTIC_TARGET: usize = 128;

pub open spec fn elastic_target_spec(buffer_frames: int, multiplier: int) -> int {
    let t = sat_mul(buffer_frames, multiplier);
    if t >= ELASTIC_TARGET_FLOOR { t } else { ELASTIC_TARGET_FLOOR as int }
}

/// The cushion for a device that hands over `buffer_frames` frames per
/// callback: `multiplier` device buffers deep, never below the floor, and
/// saturating instead of overflowing for an absurd buffer.
pub fn elastic_target_for_buffer(buffer_frames: u32, multiplier: usize) -> (r: usize)
    ensures
        r == elastic_target_spec(buffer_frames as int, multiplier as int),
        r >= ELASTIC_TARGET_FLOOR,
{
    let t = saturating_mul(buffer_frames as usize, multiplier);
    if t >= ELASTIC_TARGET_FLOOR {
        t
    } else {
        ELASTIC_TARGET_FLOOR
    }
}

/// The elastic target of route `route_idx`, falling back to
/// [`DEFAULT_ELASTIC_TARGET`] when the caller did not give one.
pub fn target_for_route(elastic_targets: &[usize], route_idx: usize) -> (r: usize)
    ensures
        route_idx < elastic_targets@.len() ==> r == elastic_targets@[route_idx as int],
        route_idx >= elastic_targets@.len() ==> r == DEFAULT_ELASTIC_TARGET,
{
    if route_idx < elastic_targets.len() {
        elastic_targets[route_idx]
    } else {
        DEFAULT_ELASTIC_TARGET
    }
}

} // verus!
