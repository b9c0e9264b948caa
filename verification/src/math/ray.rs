//! A single ray of light: an origin and a direction.

use vstd::prelude::*;

use crate::math::fixed::{fmul, lemma_fmul_range, lemma_mul_bound};
use crate::math::vec3::{sb, vec_in, Vec3, FP_OP_MAX};

verus! {

/// Represents a single ray of light to bounce around the scene.
#[derive(Clone, Copy, Debug, PartialEq, Eq, Structural)]
pub struct Ray {
    /// The origin of the Ray.
    pub origin: Vec3,
    /// The direction of the Ray (not necessarily normalized).
    pub direct: Vec3,
}

/// The exact point at parameter `t` along a ray, component by component.
pub open spec fn spec_at(ray: Ray, t: int) -> (int, int, int) {
    (
        ray.origin.x + fmul(t, ray.direct.x as int),
        ray.origin.y + fmul(t, ray.direct.y as int),
        ray.origin.z + fmul(t, ray.direct.z as int),
    )
}

impl Ray {
    /// Constructor for the Ray from an origin and a direction.
    pub fn new(origin: Vec3, direction: Vec3) -> (r: Ray)
        ensures
            r == (Ray { origin, direct: direction }),
    {
        Ray { origin, direct: direction }
    }

    /// Constructor for the Ray that initializes it to all zeroes.
    pub fn zeroes() -> (r: Ray)
        ensures
            r.origin == (Vec3 { x: 0i64, y: 0i64, z: 0i64 }),
            r.direct == (Vec3 { x: 0i64, y: 0i64, z: 0i64 }),
    {
        Ray { origin: Vec3::zeroes(), direct: Vec3::zeroes() }
    }

    /// Returns the point at distance parameter `t` along this ray.
    pub fn at(&self, t: i64) -> (p: Vec3)
        requires
            vec_in(self.origin, 0x2000000000000000),
            vec_in(self.direct, FP_OP_MAX as int),
            sb(t as int, FP_OP_MAX as int),
        ensures
            p.x as int == spec_at(*self, t as int).0,
            p.y as int == spec_at(*self, t as int).1,
            p.z as int == spec_at(*self, t as int).2,
    {
        proof {
            lemma_at_product(t as int, self.direct.x as int);
            lemma_at_product(t as int, self.direct.y as int);
            lemma_at_product(t as int, self.direct.z as int);
        }
        Vec3 {
            x: self.origin.x + mul_fp_local(t, self.direct.x),
            y: self.origin.y + mul_fp_local(t, self.direct.y),
            z: self.origin.z + mul_fp_local(t, self.direct.z),
        }
    }
}

/// Bound for the product of the parameter and a direction component.
proof fn lemma_at_product(t: int, d: int)
    requires
        sb(t, FP_OP_MAX as int),
        sb(d, FP_OP_MAX as int),
    ensures
        -0x10000000000000000000 <= t * d <= 0x10000000000000000000,
        -0x1000000000000000 <= fmul(t, d) <= 0x1000000000000000,
{
    lemma_mul_bound(t, d, FP_OP_MAX as int, FP_OP_MAX as int);
    lemma_fmul_range(t, d, 0x10000000000000000000);
}

/// Fixed-point product under the bounds established above.
fn mul_fp_local(t: i64, d: i64) -> (r: i64)
    requires
        -0x10000000000000000000 <= (t as int) * (d as int) <= 0x10000000000000000000,
        -0x1000000000000000 <= fmul(t as int, d as int) <= 0x1000000000000000,
    ensures
        r == fmul(t as int, d as int),
        -0x1000000000000000 <= r <= 0x1000000000000000,
{
    crate::math::fixed::mul_fp(t, d)
}

} // verus!
