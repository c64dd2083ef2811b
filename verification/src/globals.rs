//! Units and tuning constants of the simulation.
//!
//! Positions are fixed-point: `UNIT` coordinate units make up the distance
//! from the centre of the screen to one of its edges. Time is counted in
//! microseconds, and a speed is a number of coordinate units per microsecond.
use vstd::prelude::*;

verus! {

/// Coordinate units in the distance from the centre of the screen to an edge.
pub const UNIT: i64 = 10_000_000;

/// The shortest tick, in microseconds: one 144th of a second.
pub const TICK_RATE: u32 = 6_944;

/// Vertical speed of a jump and of a fall, in coordinate units per
/// microsecond: one screen half-height per second.
pub const JUMP_SPEED: i64 = 10;

/// Horizontal speed of the player, in coordinate units per microsecond:
/// eight tenths of a screen half-width per second.
pub const PLAYER_SPEED: i64 = 8;

/// Number of ticks for which a jump rises.
pub const JUMP_TICKS: u32 = 40;

/// Distance from the centre at which the player wraps round to the other
/// side of the screen: 1.1 screen half-widths.
pub const WRAP_X: i64 = 11_000_000;

/// Height below which the player is never left: 0.95 screen half-heights
/// under the centre.
pub const FLOOR_Y: i64 = -9_500_000;

/// Largest magnitude of a coordinate for which a whole tick is known to
/// stay clear of the limits of `i64`.
pub const COORD_LIMIT: i64 = 1_000_000_000_000_000_000;

} // verus!
