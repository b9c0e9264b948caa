//! The `materials` module defines the materials objects can be made of.
//! Each material variant has its own flat list in the hit list and its
//! own scatter code path; none is ever called through a trait object.

pub mod diffuse;
pub mod simple;

pub use diffuse::Diffuse;
pub use simple::{NormalMap, StaticColour};
