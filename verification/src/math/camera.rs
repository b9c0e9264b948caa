//! The camera: the viewport through which rays are cast into the scene.

use vstd::prelude::*;

use crate::math::fixed::{fdiv, fmul, lemma_fmul_range, lemma_mul_bound, mul_fp, tdiv, tdiv64};
use crate::math::ray::Ray;
use crate::math::vec3::{sb, vec_in, Vec3};
use crate::specifications::objects::sphere::ray_ok;

verus! {

/// Whether a camera's vectors lie within the bounds ray casting supports.
pub open spec fn cam_ok(cam: Camera) -> bool {
    &&& vec_in(cam.origin, 0x1000000)
    &&& vec_in(cam.horizontal, 0x1000000)
    &&& vec_in(cam.vertical, 0x1000000)
    &&& vec_in(cam.lower_left_corner, 0x1000000)
}

/// The Camera defines the viewport and casts rays through it.
#[derive(Clone, Copy, Debug, PartialEq, Eq, Structural)]
pub struct Camera {
    /// The focal point: where all rays start from.
    pub origin: Vec3,
    /// The horizontal axis of the viewport.
    pub horizontal: Vec3,
    /// The vertical axis of the viewport.
    pub vertical: Vec3,
    /// The lower left corner of the viewport.
    pub lower_left_corner: Vec3,
}

/// The ray through logical viewport position `(u, v)`: from the origin
/// toward the corresponding point of the viewport.
pub open spec fn spec_cast(cam: Camera, u: int, v: int) -> Ray {
    Ray {
        origin: cam.origin,
        direct: Vec3 {
            x: (cam.lower_left_corner.x + fmul(u, cam.horizontal.x as int) + fmul(
                v,
                cam.vertical.x as int,
            ) - cam.origin.x) as i64,
            y: (cam.lower_left_corner.y + fmul(u, cam.horizontal.y as int) + fmul(
                v,
                cam.vertical.y as int,
            ) - cam.origin.y) as i64,
            z: (cam.lower_left_corner.z + fmul(u, cam.horizontal.z as int) + fmul(
                v,
                cam.vertical.z as int,
            ) - cam.origin.z) as i64,
        },
    }
}

impl Camera {
    /// Constructor for a camera at the origin, looking along the negative
    /// Z axis, with the given logical viewport `(width, height)` and
    /// focal length.
    pub fn new(viewport: (i64, i64), focal_length: i64) -> (r: Camera)
        requires
            sb(viewport.0 as int, 0x800000),
            sb(viewport.1 as int, 0x800000),
            sb(focal_length as int, 0x800000),
        ensures
            r.origin == (Vec3 { x: 0i64, y: 0i64, z: 0i64 }),
            r.horizontal == (Vec3 { x: viewport.0, y: 0i64, z: 0i64 }),
            r.vertical == (Vec3 { x: 0i64, y: viewport.1, z: 0i64 }),
            r.lower_left_corner.x as int == -tdiv(viewport.0 as int, 2),
            r.lower_left_corner.y as int == -tdiv(viewport.1 as int, 2),
            r.lower_left_corner.z == -focal_length,
            cam_ok(r),
    {
        let origin = Vec3::zeroes();
        let horizontal = Vec3 { x: viewport.0, y: 0, z: 0 };
        let vertical = Vec3 { x: 0, y: viewport.1, z: 0 };
        let half_w: i64 = tdiv64(viewport.0, 2);
        let half_h: i64 = tdiv64(viewport.1, 2);
        proof {
            crate::math::fixed::lemma_tdiv_magnitude(viewport.0 as int, 2);
            crate::math::fixed::lemma_tdiv_magnitude(viewport.1 as int, 2);
        }
        let lower_left_corner = Vec3 { x: -half_w, y: -half_h, z: -focal_length };
        Camera { origin, horizontal, vertical, lower_left_corner }
    }

    /// Casts a ray through logical viewport position `(u, v)`, each in
    /// `[0, 1]` for points on the viewport.
    pub fn cast(&self, u: i64, v: i64) -> (r: Ray)
        requires
            cam_ok(*self),
            sb(u as int, 0x40000),
            sb(v as int, 0x40000),
        ensures
            r == spec_cast(*self, u as int, v as int),
            ray_ok(r),
    {
        proof {
            lemma_cast_product(u as int, self.horizontal.x as int);
            lemma_cast_product(u as int, self.horizontal.y as int);
            lemma_cast_product(u as int, self.horizontal.z as int);
            lemma_cast_product(v as int, self.vertical.x as int);
            lemma_cast_product(v as int, self.vertical.y as int);
            lemma_cast_product(v as int, self.vertical.z as int);
        }
        let direct = Vec3 {
            x: self.lower_left_corner.x + mul_fp(u, self.horizontal.x) + mul_fp(v, self.vertical.x)
                - self.origin.x,
            y: self.lower_left_corner.y + mul_fp(u, self.horizontal.y) + mul_fp(v, self.vertical.y)
                - self.origin.y,
            z: self.lower_left_corner.z + mul_fp(u, self.horizontal.z) + mul_fp(v, self.vertical.z)
                - self.origin.z,
        };
        Ray { origin: self.origin, direct }
    }
}

/// Bound for the product of a viewport coordinate and a camera vector
/// component.
proof fn lemma_cast_product(u: int, h: int)
    requires
        sb(u, 0x40000),
        sb(h, 0x1000000),
    ensures
        -0x40000000000 <= u * h <= 0x40000000000,
        -0x4000000 <= fmul(u, h) <= 0x4000000,
{
    lemma_mul_bound(u, h, 0x40000, 0x1000000);
    lemma_fmul_range(u, h, 0x40000000000);
}

} // verus!
