//! Simulation core of a voxel-world game: a sliding window of terrain chunks
//! around a moving viewpoint, incremental block lighting, swept-box collision
//! resolution, voxel ray traversal, and the per-tick orchestration that binds
//! them together.
//!
//! All continuous quantities (positions, velocities, collision times) are held
//! in fixed-point milli-units (one block = 1000 units) or as exact rationals,
//! so that every computation is integer arithmetic with proved bounds.

pub mod block;
pub mod chunk;
pub mod game;
pub mod input;
pub mod light;
pub mod physics;
pub mod raycast;
pub mod terrain;
pub mod util;
pub mod vecmath;
pub mod world;
