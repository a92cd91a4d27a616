//! Verified core of a grid ray caster: the occupancy grid, the collision rule
//! for player movement, the grid traversal that finds the wall a ray strikes,
//! and the integer side of turning hits into draw commands.
//!
//! Everything here works on integers. Positions, directions and distances are
//! real-valued and live with the caller, which hands this crate the cells and
//! the order of grid-line crossings that its arithmetic produced.

pub mod compositor;
pub mod map;
pub mod movement;
pub mod raycast;
