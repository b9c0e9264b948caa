//! Common definitions for renderable objects: the hit record.

use vstd::prelude::*;

use crate::math::ray::Ray;
use crate::math::vec3::{spec_dot3, vec_in, Vec3, FP_OP_MAX};

verus! {

/// Everything we want to know about a hit.
#[derive(Clone, Copy, Debug, PartialEq, Eq, Structural)]
pub struct HitRecord {
    /// The (closest) point where the ray hits an object.
    pub hit: Vec3,
    /// The same point, given as distance parameter along the ray.
    pub t: i64,
    /// The surface normal at the hit point, oriented against the ray.
    pub normal: Vec3,
    /// Whether the ray hits the front face of the object (approaches from
    /// outside the surface) or the back face.
    pub front_face: bool,
}

impl HitRecord {
    /// Constructor that computes the stored normal and the front-face flag
    /// from the ray and the outward-facing normal: the ray hits the front
    /// face exactly when it runs against the outward normal, and the
    /// stored normal is flipped to face the ray.
    pub fn new(ray: Ray, hit: Vec3, t: i64, outward_normal: Vec3) -> (r: HitRecord)
        requires
            vec_in(ray.direct, FP_OP_MAX as int),
            vec_in(outward_normal, FP_OP_MAX as int),
        ensures
            r.hit == hit,
            r.t == t,
            r.front_face == (spec_dot3(ray.direct, outward_normal) < 0),
            r.front_face ==> r.normal == outward_normal,
            !r.front_face ==> {
                &&& r.normal.x == -outward_normal.x
                &&& r.normal.y == -outward_normal.y
                &&& r.normal.z == -outward_normal.z
            },
    {
        let front_face: bool = crate::math::vec3::dot3(ray.direct, outward_normal) < 0;
        let normal: Vec3 = if front_face {
            outward_normal
        } else {
            outward_normal.neg()
        };
        HitRecord { hit, t, normal, front_face }
    }
}

} // verus!
