//! Defines the "outside world" specifications for the ray tracer: the
//! renderable objects, their materials, the feature configuration and the
//! scene description.



pub mod features;
pub mod materials;
pub mod objects;
pub mod scene;

