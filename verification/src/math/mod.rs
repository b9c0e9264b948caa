//! The `math` module implements the arithmetic needed for the ray tracer:
//! fixed-point scalars, 3D vectors, colours, rays, bounding boxes and the
//! camera.

pub mod fixed;
pub mod camera;
pub mod vec3;
pub mod colour;
pub mod ray;
pub mod aabb;
