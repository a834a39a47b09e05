//! Decision logic of a patched-conic orbit simulator.
//!
//! The numerical side of such a simulator (vector algebra, Kepler's equation,
//! trigonometry) works on floating-point values and lives with the caller.
//! This crate holds what the simulator decides with the numbers it is given:
//!
//! - `solver`: when a root search stops, and with what;
//! - `regime`: when a body changes its gravitational primary at a tick;
//! - `path`: where the predicted path of a body is cut into segments;
//! - `controls`: which body the view follows next.
//!
//! Every function here is verified against the contract it carries.

pub mod controls;
pub mod path;
pub mod regime;
pub mod solver;
