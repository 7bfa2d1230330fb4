//! Global tuning constants of the simulation.
//!
//! Every length in this crate is a fixed-point integer counted in hundredths
//! of a pixel; the arena is 800 x 600 pixels.

use vstd::prelude::*;

verus! {

/// Arena width, in hundredths of a pixel (800 px).
pub const WIDTH: i64 = 80000;
/// Arena height, in hundredths of a pixel (600 px).
pub const HEIGHT: i64 = 60000;

/// Base radii of the ball archetypes (5, 8, 15, 25, 50 and 75 px).
pub const TINY: i64 = 500;
pub const SMALL: i64 = 800;
pub const BIG: i64 = 1500;
pub const LARGE: i64 = 2500;
pub const FULL: i64 = 5000;
pub const COLOSSAL: i64 = 7500;

/// Base speed magnitudes (2 and 4 px per tick).
pub const SLOW: i64 = 200;
pub const FAST: i64 = 400;

/// Radius gained per tick while expanding (1 and 9 px per tick).
pub const GROWS: i64 = 100;
pub const EXPLODES: i64 = 900;

/// Shrink rule: while shrinking, the radius loses `SHRINK_STEP / radius` per
/// tick (the fixed-point form of losing `7 / r` pixels at radius `r` pixels:
/// a harmonic decay that slows down as the ball gets smaller).
pub const SHRINK_STEP: i64 = 70000;

/// A shrinking ball whose staged radius falls below this (5 px) vanishes.
pub const VANISH_RADIUS: i64 = 500;

/// Largest speed magnitude a spawned ball can carry: `FAST * 12 / 10`.
pub const VEL_LIMIT: i64 = 480;

/// How many archetypes the random catalog holds.
pub const CATALOG_SIZE: usize = 17;

} // verus!
