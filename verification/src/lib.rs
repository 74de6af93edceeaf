//! A grid-based ray-casting engine in fixed-point arithmetic.
//!
//! The library computes everything a first-person maze renderer needs per
//! frame: for each screen column, the exact perpendicular distance to the
//! nearest wall (a DDA grid traversal), the vertical wall span on screen, a
//! texture coordinate along the struck face, and billboard sprite projection
//! with per-column occlusion against the wall distances.
//!
//! All continuous quantities (world positions, distances, direction
//! components, angles in radians) are fixed-point `i64` values scaled by
//! [`fixed::FP`]. Callers that work with floating point convert at the
//! boundary; every function here is exact integer arithmetic with a proved
//! contract.

pub mod caster;
pub mod color;
pub mod fixed;
pub mod grid;
pub mod maze;
pub mod player;
pub mod project;
pub mod sight;
pub mod sprite;
pub mod state;
