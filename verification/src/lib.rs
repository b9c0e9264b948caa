//! An offline path-tracing renderer.
//!
//! A scene of spheres, grouped into a recursive tree, is flattened into
//! per-material hit lists with precomputed bounding boxes; rays are cast
//! through a camera viewport, pruned against the bounding boxes, resolved
//! to their closest intersection and bounced off the materials until a
//! configured depth runs out.
//!
//! All geometry and colour arithmetic is carried out in fixed-point
//! numbers (16 fractional bits), so that every computation has an exact,
//! provable meaning.

pub mod common;
pub mod generate;
pub mod math;
pub mod specifications;
pub mod hitlist;
pub mod render;
