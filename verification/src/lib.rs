//! Discrete kernel of a recursive ray-tracing renderer.
//!
//! A renderer's per-pixel work is floating-point geometry, but the decisions
//! that hold it together are exact: which intersection record is the visible
//! hit, in what order the hit list is arranged, which media enclose a
//! refraction boundary, which cell of a procedural pattern a point falls in,
//! how a frame buffer is addressed and how it is cut into bands for parallel
//! rendering, and when an operation on a point/vector tuple or a matrix is
//! rejected. This crate states and proves those rules; the floating-point
//! evaluation around them lives with the caller.

pub mod hits;
pub mod lights;
pub mod matrices;
pub mod patterns;
pub mod refraction;
pub mod render;
pub mod scene;
pub mod tuples;
