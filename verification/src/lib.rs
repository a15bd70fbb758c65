//! Core logic of a small 2D tile-grid game, in integer world units.
//!
//! The `tilemap` module parses two plain-text map layers (background and
//! obstacle) into positioned tile records and computes the offset that
//! centers the whole map on the origin. The `player` module resolves a
//! keyboard-derived displacement against the collidable tiles with
//! axis-independent bounding-box tests, and keeps the player's facing,
//! running flag and animation cadence up to date.
//!
//! All coordinates, sizes and speeds are fixed-point integers: one tile
//! side is `tile_size` world units, chosen by the caller.

pub mod player;
pub mod tilemap;
