//! Tile-grid raycasting and rigid-body reflection engine for a 2D top-down
//! action game: grid traversal raycasts, closest-approach geometry,
//! the grenade state machine with drag integration and elastic bounce,
//! and line-of-sight gated explosion resolution.
//!
//! All world quantities are fixed-point integers: positions and vectors are
//! measured in milliunits (1/1000 of a world unit), time in milliseconds,
//! and velocities in milliunits per millisecond (numerically equal to world
//! units per second).

pub mod character;
pub mod geom;
pub mod grenade;
pub mod grid;
pub mod material;
pub mod object;
