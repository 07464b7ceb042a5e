//! Decision engine for a two-player underwater exploration game: per turn it
//! tracks hidden entities, predicts hazard motion, grades the map by remaining
//! economic value, and runs an evolutionary trajectory search under a
//! wall-clock budget to pick one heading and light toggle per drone.
//!
//! All geometry is in integer game units; grid and score scalars are held in
//! fixed-point integers (thousandths for grid cell weights, millionths of a
//! point for trajectory scores).

pub mod ext;
pub mod vec2;
pub mod world;
pub mod bounds_detector;
pub mod maps;
pub mod meta_strategy;
pub mod tracker;
pub mod pathfinding;
pub mod simulation;
pub mod strategy;
pub mod debug;
