//! Core of a 2D arcade puzzle: balls bounce inside a bounded arena, the player
//! fires a capture ball that expands, touches normal balls and turns them into
//! a shrink-and-vanish chain, scored against a per-level quota.
//!
//! All coordinates, radii and velocities are fixed-point integers counted in
//! hundredths of a pixel, so the whole simulation is exact integer arithmetic.

pub mod ball;
pub mod constants;
pub mod geometry;
pub mod logic;
pub mod quadtree;
