//! The `objects` module defines the objects that can be rendered. The hit
//! list never turns them into dynamic trait instances; every object is hit
//! through its own concrete code path.

pub mod spec;
pub mod sphere;
pub mod utils;

pub use spec::HitRecord;
pub use sphere::Sphere;
