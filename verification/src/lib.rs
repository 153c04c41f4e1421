//! Simulation core of a grid-based dungeon crawler: procedural room-and-corridor
//! level generation, the spatial and pathing model that field-of-view and AI
//! collaborators query, per-tile visibility state, and turn-based melee combat
//! resolution.

use vstd::prelude::*;

pub mod combat;
pub mod map;
pub mod player;
pub mod rect;
mod rng;

verus! {

/// The smaller of two values, used when normalising corridor endpoints.
pub fn min_i32(a: i32, b: i32) -> (r: i32)
    ensures
        r == if a <= b { a as int } else { b as int },
{
    if a <= b {
        a
    } else {
        b
    }
}

/// The larger of two values, used when normalising corridor endpoints.
pub fn max_i32(a: i32, b: i32) -> (r: i32)
    ensures
        r == if a >= b { a as int } else { b as int },
{
    if a >= b {
        a
    } else {
        b
    }
}

} // verus!
