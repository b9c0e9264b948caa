//! The `render` module implements everything dealing with rendering.

pub mod frame;
pub mod generator;
pub mod image;
pub mod multi;
pub mod single;
pub mod spec;
