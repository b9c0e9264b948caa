//! Simple, non-bouncing materials, mostly used for debugging.

use vstd::prelude::*;

use crate::math::colour::Colour;
use crate::math::fixed::{fmul, tdiv, FP_HALF, FP_ONE};
use crate::math::ray::Ray;
use crate::math::vec3::vec_in;
use crate::specifications::objects::spec::HitRecord;
use crate::specifications::objects::sphere::FP_NORMAL_MAX;

verus! {

/// A non-bouncing, static-colour material.
#[derive(Clone, Copy, Debug, PartialEq, Eq, Structural)]
pub struct StaticColour {
    /// The colour to show, regardless of lighting.
    pub colour: Colour,
}

impl StaticColour {
    /// Scatters a ray from this material: the path always terminates and
    /// the stored colour is returned unconditionally.
    pub fn scatter(&self, _ray: Ray, _record: HitRecord) -> (r: (Option<Ray>, Colour))
        ensures
            r.0.is_none(),
            r.1 == self.colour,
    {
        (None, self.colour)
    }
}

/// One channel of the normal-map colour: half of the normal component
/// plus one.
pub open spec fn spec_normal_map_ch(n: int) -> int {
    fmul(FP_HALF as int, n + FP_ONE as int)
}

/// A non-bouncing material that shows the surface normal as a colour.
#[derive(Clone, Copy, Debug, PartialEq, Eq, Structural)]
pub struct NormalMap;

impl NormalMap {
    /// Scatters a ray from this material: the path always terminates and
    /// the colour is derived from the surface normal, `0.5 * (n + 1)` per
    /// channel, with the alpha channel at exactly one.
    pub fn scatter(&self, _ray: Ray, record: HitRecord) -> (r: (Option<Ray>, Colour))
        requires
            vec_in(record.normal, FP_NORMAL_MAX as int),
        ensures
            r.0.is_none(),
            r.1.r == spec_normal_map_ch(record.normal.x as int),
            r.1.g == spec_normal_map_ch(record.normal.y as int),
            r.1.b == spec_normal_map_ch(record.normal.z as int),
            r.1.a == FP_ONE,
    {
        let n = record.normal;
        let c = Colour {
            r: normal_map_ch(n.x),
            g: normal_map_ch(n.y),
            b: normal_map_ch(n.z),
            a: normal_map_ch(FP_ONE),
        };
        proof {
            assert(c.a == fmul(32768, 131072));
            assert(fmul(32768, 131072) == tdiv(32768int * 131072, 65536));
            assert(32768 * 131072 == 0x100000000);
            assert(tdiv(0x100000000, 65536) == 65536);
        }
        (None, c)
    }
}

/// One channel of the normal-map colour.
fn normal_map_ch(n: i64) -> (r: i64)
    requires
        -0x100000 <= n <= 0x100000,
    ensures
        r == spec_normal_map_ch(n as int),
{
    proof {
        crate::math::fixed::lemma_mul_bound(
            FP_HALF as int,
            n as int + FP_ONE as int,
            0x8000,
            0x200000,
        );
    }
    crate::math::fixed::mul_fp(FP_HALF, n + FP_ONE)
}

} // verus!
