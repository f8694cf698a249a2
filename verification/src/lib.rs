//! A verified two-player Pong simulation core.
//!
//! The library models the whole match state — paddles, ball, scores, border
//! decorations, transient particles and score flashes — as plain structs over
//! integer coordinates, and steps it one frame at a time.  Positions and
//! velocities are whole world units (pixels); time is counted in
//! milliseconds.  Every system that advances the simulation carries a
//! contract stating exactly how the new state relates to the old one.

pub mod color;
pub mod effects_system;
pub mod input;
pub mod math;
mod rng;
pub mod setup;
pub mod systems;
pub mod text;
pub mod timer;
pub mod world;

use vstd::prelude::*;

verus! {

/// Horizontal gap between a paddle's centre line and the playfield edge.
pub const PADDLE_MARGIN: i64 = 50;

/// Full width of a paddle.
pub const PADDLE_WIDTH: i64 = 10;

/// Full height of a paddle.
pub const PADDLE_HEIGHT: i64 = 100;

/// Radius of the (square) ball sprite.
pub const BALL_RADIUS: i64 = 5;

/// Generous bound on a playfield half-extent.  Real windows are a few
/// thousand units wide; the bound only keeps every intermediate product
/// of the physics inside `i64`.
pub const HALF_EXTENT_LIMIT: i64 = 1_000_000_000;

/// Generous bound on an entity coordinate, far beyond any reachable
/// position; like [`HALF_EXTENT_LIMIT`] it only rules out `i64` overflow.
pub const COORD_LIMIT: i64 = 1_000_000_000_000;

/// Generous bound on a velocity component's magnitude, for the same
/// overflow argument.
pub const SPEED_LIMIT: i64 = 1_000_000_000;

/// Longest frame delta a tick accepts, in milliseconds (over eleven days).
pub const FRAME_DT_LIMIT_MS: u64 = 1_000_000_000;

/// Halved playfield dimensions from the window's pixel size.
///
/// Every positional rule in the simulation is phrased over the half-width
/// and half-height of the playfield, with the origin at the centre.
pub fn get_window_dimensions(width: i64, height: i64) -> (r: (i64, i64))
    requires
        0 <= width,
        0 <= height,
    ensures
        r.0 == width / 2,
        r.1 == height / 2,
{
    (width / 2, height / 2)
}

} // verus!
