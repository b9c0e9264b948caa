//! The diffuse material: it bounces rays off its surface in a random
//! direction biased along the surface normal.

use vstd::prelude::*;

use crate::common::random::{spec_rng_step, spec_rng_step3, Rng};
use crate::math::colour::Colour;
use crate::math::ray::Ray;
use crate::math::vec3::{spec_unit_vec, vec_in, Vec3};
use crate::specifications::objects::spec::HitRecord;
use crate::specifications::objects::sphere::FP_NORMAL_MAX;

verus! {

/// The raw random sample drawn for one bounce: three consecutive draws,
/// each a fixed-point value in `[0, 1)`.
pub open spec fn spec_raw3(s: u64) -> Vec3 {
    Vec3 {
        x: (spec_rng_step(s) % 65536) as i64,
        y: (spec_rng_step(spec_rng_step(s)) % 65536) as i64,
        z: (spec_rng_step3(s) % 65536) as i64,
    }
}

/// Generates a random vector of unit length: three uniformly sampled
/// components in `[0, 1)`, normalized to length one. A sample whose
/// length rounds to zero yields the zero vector.
pub fn random3_uniform(rng: &mut Rng) -> (v: Vec3)
    ensures
        final(rng).state == spec_rng_step3(old(rng).state),
        v == spec_unit_vec(spec_raw3(old(rng).state)),
        vec_in(v, 2int * 65536),
{
    let x: i64 = rng.next_unit();
    let y: i64 = rng.next_unit();
    let z: i64 = rng.next_unit();
    let raw = Vec3 { x, y, z };
    proof {
        assert(raw == spec_raw3(old(rng).state));
    }
    raw.unit()
}

/// The bounce direction of a diffuse scatter: the surface normal plus the
/// random unit vector, falling back to the normal itself when the two
/// exactly cancel (a zero direction would propagate degenerate values).
pub open spec fn spec_scatter_dir(normal: Vec3, u: Vec3) -> Vec3
    recommends
        vec_in(normal, FP_NORMAL_MAX as int),
        vec_in(u, 2int * 65536),
{
    let d = Vec3 {
        x: (normal.x + u.x) as i64,
        y: (normal.y + u.y) as i64,
        z: (normal.z + u.z) as i64,
    };
    if d.x == 0 && d.y == 0 && d.z == 0 {
        normal
    } else {
        d
    }
}

/// The bounce direction as a function of the normal and the generator
/// state consumed by the bounce.
pub open spec fn spec_diffuse_dir(normal: Vec3, s: u64) -> Vec3 {
    spec_scatter_dir(normal, spec_unit_vec(spec_raw3(s)))
}

/// The laziest diffuse material: it bounces the ray uniformly off its
/// surface.
#[derive(Clone, Copy, Debug, PartialEq, Eq, Structural)]
pub struct Diffuse {
    /// The colour of the material.
    pub colour: Colour,
}

impl Diffuse {
    /// Scatters a ray from this material: a new ray leaves the hit point
    /// in the direction of the normal plus a random unit vector, and the
    /// material's colour attenuates whatever that ray brings back.
    pub fn scatter(&self, _ray: Ray, record: HitRecord, rng: &mut Rng) -> (r: (Option<Ray>, Colour))
        requires
            vec_in(record.normal, FP_NORMAL_MAX as int),
        ensures
            final(rng).state == spec_rng_step3(old(rng).state),
            r.0 == Some(
                Ray {
                    origin: record.hit,
                    direct: spec_diffuse_dir(record.normal, old(rng).state),
                },
            ),
            vec_in(spec_diffuse_dir(record.normal, old(rng).state), 0x80000),
            r.1 == self.colour,
    {
        let u: Vec3 = random3_uniform(rng);
        let n = record.normal;
        let d = Vec3 { x: n.x + u.x, y: n.y + u.y, z: n.z + u.z };
        let dir: Vec3 = if d.is_nearly_zero() {
            n
        } else {
            d
        };
        proof {
            assert(dir == spec_diffuse_dir(record.normal, old(rng).state));
        }
        (Some(Ray::new(record.hit, dir)), self.colour)
    }
}

/// The diffuse bounce can never come out with a zero-length direction:
/// when the random sample exactly cancels the normal, the fallback keeps
/// the normal itself, which is nonzero for any true surface point.
pub proof fn lemma_diffuse_never_degenerate(normal: Vec3, s: u64)
    requires
        !(normal.x == 0 && normal.y == 0 && normal.z == 0),
        vec_in(normal, FP_NORMAL_MAX as int),
    ensures
        !(spec_diffuse_dir(normal, s).x == 0 && spec_diffuse_dir(normal, s).y == 0
            && spec_diffuse_dir(normal, s).z == 0),
{
}

} // verus!
