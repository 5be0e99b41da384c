//! Simulation core of a small 2D game engine: per-kind component stores keyed
//! by entity, keyboard state tracking for input-bound controllers, and a
//! sorted flyweight tile registry with fixed-size tile maps.
//!
//! Values that the renderer and the integrator treat as real numbers (colors,
//! world positions, tile sizes) are carried here as the raw 32-bit patterns
//! of single-precision values: the core stores and hands them on, it never
//! computes on them.

pub mod clock;
pub mod color;
pub mod entity;
pub mod input;
pub mod logger;
pub mod physics;
pub mod store;
pub mod tile;
