//! A small obstacle-dodging simulation on a bounded integer plane.
//!
//! The player moves inside the plane, obstacles enter at the right edge and
//! drift left, and the session is over once the player's anchor lies inside
//! an obstacle's box. The crate holds the simulation and the decisions of a
//! session; drawing, input and pacing belong to the program that drives it.

pub mod geometry;
pub mod entity;
pub mod queue;
pub mod random;
pub mod world;
pub mod session;
