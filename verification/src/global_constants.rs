//! Limits of the tile grid and fixed parameters of a run.

use vstd::prelude::*;

verus! {

/// Smallest coordinate, on either axis, that names a tile of the grid.
pub const MIN_POINT_DIM: i16 = 0;

/// First coordinate, on either axis, past the tiles of the grid.
pub const MAX_POINT_DIM: i16 = 1000;

/// Colour channels that a texture repeats each height in.
pub const CHANNELS: usize = 3;

/// Longest time, in seconds, that one download attempt may take.
pub const REQUEST_TIMEOUT_SECS: u64 = 300;

/// Exclusive upper limit, in seconds, of the pause after a delivered tile.
pub const PACING_LIMIT_SECS: u64 = 5;

} // verus!
