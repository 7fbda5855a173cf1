//! Swept axis-aligned-bounding-box collision detection and movement
//! resolution for a 2D platformer-style simulation.
//!
//! Coordinates, extents and velocities are signed integers in sub-units
//! chosen by the caller; the y axis grows downward.  Each tick, the
//! detector sweeps every movable entity's rectangle by its intended
//! displacement against every other entity's current rectangle and emits
//! directional collision events; the resolver aggregates the events per
//! entity into per-axis bounds and clamps the intended displacement into
//! them.

pub mod rect;

pub mod entity;

pub mod collision;

pub mod resolve;

pub mod laws;

