//! The hit list: a flattened, per-material-type representation of the
//! scene, hittable without dynamic dispatch.

pub mod hitlist;

pub use hitlist::{HitIndex, HitList, HitVec};
