//! The numbers of the game.

use vstd::prelude::*;

verus! {

/// The side of a cell of the maze, in world units.
pub const BLOCK_SIZE: usize = 100;

/// How far the player walks in one frame: five world units, as a fixed-point number.
pub const MOVE_SPEED: i64 = 327680;

/// How far the player turns in one frame: a twentieth of a radian, as a fixed-point number.
pub const ROT_SPEED: i64 = 3277;

} // verus!
