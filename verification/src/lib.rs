//! Dice rolling without an engine: which face of a die points up, and when
//! a roll has a new outcome to report.
//!
//! The numbers are integers throughout. An orientation is a quaternion with
//! integer components, and a face normal a vector with integer coordinates,
//! so every comparison the classifier makes is exact.

pub mod classifier;
pub mod events;
pub mod face_map;
pub mod geometry;
pub mod rows;
pub mod session;
pub mod state;
pub mod toss;
