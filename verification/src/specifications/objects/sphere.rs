//! A renderable perfect sphere and its exact ray intersection.
//!
//! The intersection solves the quadratic `|O + tD - C|^2 = r^2` in
//! fixed-point arithmetic: with `a = |D|^2`, `half_b = D . (O - C)` and
//! `c = |O - C|^2 - r^2`, the discriminant is `half_b^2 - a c`; if it is
//! nonnegative the smaller root is tried first, then the larger, against
//! the acceptable parameter range. Every rounding step (products and
//! divisions truncate toward zero, the square root rounds down) is part
//! of the specification, so the returned record is pinned down exactly.

use vstd::prelude::*;

use crate::math::aabb::AABB;
use crate::math::fixed::{
    fdiv, fmul, isqrt, lemma_isqrt_bounds, lemma_mul_bound, lemma_square_nonneg,
    lemma_tdiv_magnitude, lemma_tdiv_monotone, lemma_tdiv_range, isqrt128, tdiv, tdiv128,
    FP_COORD_MAX,
};
use crate::math::ray::{spec_at, Ray};
use crate::math::vec3::{sb, spec_dot3, vec_in, Vec3};
use crate::specifications::objects::spec::HitRecord;

verus! {

/// The largest magnitude a stored normal component may take: four whole
/// units. A true surface normal has length about one; only degenerate
/// rounding cases reach the clamp.
pub const FP_NORMAL_MAX: i64 = 0x40000;

/// The components of a vector, as plain integers.
pub open spec fn tup_of(v: Vec3) -> (int, int, int) {
    (v.x as int, v.y as int, v.z as int)
}

/// The fixed-point dot product of two component triples.
pub open spec fn dot3t(a: (int, int, int), b: (int, int, int)) -> int {
    fmul(a.0, b.0) + fmul(a.1, b.1) + fmul(a.2, b.2)
}

/// A value clamped to `[-m, m]`.
pub open spec fn clamp_i(v: int, m: int) -> int {
    if v < -m {
        -m
    } else if v > m {
        m
    } else {
        v
    }
}

/// The vector from the sphere's center to the ray's origin.
pub open spec fn sph_oc(c: Vec3, ray: Ray) -> (int, int, int) {
    (
        ray.origin.x - c.x,
        ray.origin.y - c.y,
        ray.origin.z - c.z,
    )
}

/// The quadratic's leading coefficient: the squared length of the ray's
/// direction.
pub open spec fn sph_a(ray: Ray) -> int {
    dot3t(tup_of(ray.direct), tup_of(ray.direct))
}

/// Half the quadratic's middle coefficient.
pub open spec fn sph_half_b(c: Vec3, ray: Ray) -> int {
    dot3t(sph_oc(c, ray), tup_of(ray.direct))
}

/// The quadratic's constant coefficient.
pub open spec fn sph_cc(c: Vec3, rad: int, ray: Ray) -> int {
    dot3t(sph_oc(c, ray), sph_oc(c, ray)) - fmul(rad, rad)
}

/// The discriminant `half_b^2 - a c` (negative exactly when the ray's
/// line misses the sphere).
pub open spec fn sph_disc(c: Vec3, rad: int, ray: Ray) -> int {
    fmul(sph_half_b(c, ray), sph_half_b(c, ray)) - fmul(sph_a(ray), sph_cc(c, rad, ray))
}

/// The rounded-down square root of the discriminant.
pub open spec fn sph_sqrt_disc(c: Vec3, rad: int, ray: Ray) -> int
    recommends
        sph_disc(c, rad, ray) >= 0,
{
    isqrt((sph_disc(c, rad, ray) * 65536) as nat) as int
}

/// The smaller root of the quadratic.
pub open spec fn sph_root1(c: Vec3, rad: int, ray: Ray) -> int {
    fdiv(-sph_half_b(c, ray) - sph_sqrt_disc(c, rad, ray), sph_a(ray))
}

/// The larger root of the quadratic.
pub open spec fn sph_root2(c: Vec3, rad: int, ray: Ray) -> int {
    fdiv(-sph_half_b(c, ray) + sph_sqrt_disc(c, rad, ray), sph_a(ray))
}

/// The accepted hit parameter, if any: no hit when the direction is
/// degenerate (`a == 0`) or the discriminant is negative; otherwise the
/// smaller root if it lies within `[tn, tx]`, else the larger root if it
/// does, else no hit.
pub open spec fn spec_sphere_hit_t(c: Vec3, rad: int, ray: Ray, tn: int, tx: int) -> Option<int> {
    if sph_a(ray) == 0 {
        None
    } else if sph_disc(c, rad, ray) < 0 {
        None
    } else if tn <= sph_root1(c, rad, ray) <= tx {
        Some(sph_root1(c, rad, ray))
    } else if tn <= sph_root2(c, rad, ray) <= tx {
        Some(sph_root2(c, rad, ray))
    } else {
        None
    }
}

/// The hit point stored in a record: the exact point along the ray,
/// clamped per component to the coordinate range that further bounces
/// support (a true surface point is far inside it).
pub open spec fn sph_point(ray: Ray, t: int) -> (int, int, int) {
    (
        clamp_i(spec_at(ray, t).0, 0x200000000000),
        clamp_i(spec_at(ray, t).1, 0x200000000000),
        clamp_i(spec_at(ray, t).2, 0x200000000000),
    )
}

/// The outward normal at the hit parameter: the stored hit point minus
/// the center, divided by the radius, clamped to [`FP_NORMAL_MAX`].
pub open spec fn sph_outward(c: Vec3, rad: int, ray: Ray, t: int) -> (int, int, int) {
    (
        clamp_i(fdiv(sph_point(ray, t).0 - c.x, rad), FP_NORMAL_MAX as int),
        clamp_i(fdiv(sph_point(ray, t).1 - c.y, rad), FP_NORMAL_MAX as int),
        clamp_i(fdiv(sph_point(ray, t).2 - c.z, rad), FP_NORMAL_MAX as int),
    )
}

/// Whether the ray hits the front face at `t`: it runs against the
/// outward normal.
pub open spec fn sph_front_face(c: Vec3, rad: int, ray: Ray, t: int) -> bool {
    dot3t(tup_of(ray.direct), sph_outward(c, rad, ray, t)) < 0
}

/// The stored normal at `t`: the outward normal, flipped to face the ray.
pub open spec fn sph_normal(c: Vec3, rad: int, ray: Ray, t: int) -> (int, int, int) {
    let ow = sph_outward(c, rad, ray, t);
    if sph_front_face(c, rad, ray, t) {
        ow
    } else {
        (-ow.0, -ow.1, -ow.2)
    }
}

/// The exact fixed-point bounding box of a sphere: a cube of one radius
/// around the center.
pub open spec fn spec_sphere_box(c: Vec3, rad: int) -> crate::math::aabb::AABB
    recommends
        sphere_ok(c, rad),
{
    crate::math::aabb::AABB {
        a: Vec3 { x: (c.x - rad) as i64, y: (c.y - rad) as i64, z: (c.z - rad) as i64 },
        b: Vec3 { x: (c.x + rad) as i64, y: (c.y + rad) as i64, z: (c.z + rad) as i64 },
    }
}

/// Everything the sphere intersection promises of a returned record: its
/// parameter is the accepted root, its point, normal and front-face flag
/// are the exact formulas at that root, and its fields lie within the
/// renderer's bounds.
pub open spec fn record_matches(
    c: Vec3,
    rad: int,
    ray: Ray,
    tn: int,
    tx: int,
    rec: HitRecord,
) -> bool {
    &&& spec_sphere_hit_t(c, rad, ray, tn, tx) == Some(rec.t as int)
    &&& tup_of(rec.hit) == sph_point(ray, rec.t as int)
    &&& tup_of(rec.normal) == sph_normal(c, rad, ray, rec.t as int)
    &&& rec.front_face == sph_front_face(c, rad, ray, rec.t as int)
    &&& vec_in(rec.normal, FP_NORMAL_MAX as int)
    &&& vec_in(rec.hit, 0x200000000000)
    &&& tn <= rec.t as int <= tx
}

/// Whether a sphere's parameters lie within the supported scene bounds.
pub open spec fn sphere_ok(c: Vec3, rad: int) -> bool {
    vec_in(c, FP_COORD_MAX as int) && 0 < rad <= FP_COORD_MAX as int
}

/// Whether a ray is within the bounds the intersection supports.
pub open spec fn ray_ok(ray: Ray) -> bool {
    vec_in(ray.origin, 0x200000000000) && vec_in(ray.direct, FP_COORD_MAX as int)
}

/// Defines a perfect sphere.
#[derive(Clone, Copy, Debug)]
pub struct Sphere<M> {
    /// The center point of the sphere.
    pub center: Vec3,
    /// The radius of the sphere.
    pub radius: i64,
    /// The material the sphere is composed of.
    pub material: M,
}

impl<M> Sphere<M> {
    /// Computes the Axis-Aligned Bounding Box of this sphere: the cube of
    /// one radius around the center.
    pub fn aabb(&self) -> (bb: AABB)
        requires
            sphere_ok(self.center, self.radius as int),
        ensures
            bb.a.x == self.center.x - self.radius,
            bb.a.y == self.center.y - self.radius,
            bb.a.z == self.center.z - self.radius,
            bb.b.x == self.center.x + self.radius,
            bb.b.y == self.center.y + self.radius,
            bb.b.z == self.center.z + self.radius,
            bb == spec_sphere_box(self.center, self.radius as int),
            vec_in(bb.a, 0x20000000),
            vec_in(bb.b, 0x20000000),
    {
        let c = self.center;
        let r = self.radius;
        AABB::new(
            Vec3 { x: c.x - r, y: c.y - r, z: c.z - r },
            Vec3 { x: c.x + r, y: c.y + r, z: c.z + r },
        )
    }

    /// Computes the closest hit of the given ray with this sphere within
    /// the parameter range `[t_min, t_max]`, if any.
    pub fn hit(&self, ray: Ray, t_min: i64, t_max: i64) -> (res: Option<HitRecord>)
        requires
            sphere_ok(self.center, self.radius as int),
            ray_ok(ray),
            -0x4000000000 <= t_min <= 0x4000000000,
            -0x4000000000 <= t_max <= 0x4000000000,
        ensures
            match res {
                Some(rec) => record_matches(
                    self.center,
                    self.radius as int,
                    ray,
                    t_min as int,
                    t_max as int,
                    rec,
                ),
                None => spec_sphere_hit_t(
                    self.center,
                    self.radius as int,
                    ray,
                    t_min as int,
                    t_max as int,
                ).is_none(),
            },
    {
        let c = self.center;
        let rad = self.radius;
        let ghost radi = rad as int;

        // The vector from the sphere's center to the ray's origin.
        let ocx: i64 = ray.origin.x - c.x;
        let ocy: i64 = ray.origin.y - c.y;
        let ocz: i64 = ray.origin.z - c.z;
        let dx: i128 = ray.direct.x as i128;
        let dy: i128 = ray.direct.y as i128;
        let dz: i128 = ray.direct.z as i128;

        // a = |D|^2
        proof {
            lemma_dir_prod_bound(ray.direct.x as int, ray.direct.x as int);
            lemma_dir_prod_bound(ray.direct.y as int, ray.direct.y as int);
            lemma_dir_prod_bound(ray.direct.z as int, ray.direct.z as int);
            lemma_square_nonneg(ray.direct.x as int);
            lemma_square_nonneg(ray.direct.y as int);
            lemma_square_nonneg(ray.direct.z as int);
            lemma_tdiv_magnitude((ray.direct.x as int) * (ray.direct.x as int), 65536);
            lemma_tdiv_magnitude((ray.direct.y as int) * (ray.direct.y as int), 65536);
            lemma_tdiv_magnitude((ray.direct.z as int) * (ray.direct.z as int), 65536);
        }
        let a128: i128 = tdiv128(dx * dx, 65536) + tdiv128(dy * dy, 65536) + tdiv128(
            dz * dz,
            65536,
        );
        proof {
            assert(a128 == sph_a(ray));
            assert(0 <= a128 < 0x40000000000);
        }

        // half_b = D . (O - C)
        proof {
            lemma_mixed_prod_bound(ocx as int, ray.direct.x as int);
            lemma_mixed_prod_bound(ocy as int, ray.direct.y as int);
            lemma_mixed_prod_bound(ocz as int, ray.direct.z as int);
        }
        let hb128: i128 = tdiv128((ocx as i128) * dx, 65536) + tdiv128((ocy as i128) * dy, 65536)
            + tdiv128((ocz as i128) * dz, 65536);
        proof {
            assert(hb128 == sph_half_b(c, ray));
            assert(-0x1000000000000000 < hb128 < 0x1000000000000000);
        }

        // c = |O - C|^2 - r^2
        proof {
            lemma_prod_bound(ocx as int, ocx as int);
            lemma_prod_bound(ocy as int, ocy as int);
            lemma_prod_bound(ocz as int, ocz as int);
            lemma_prod_bound(radi, radi);
        }
        let c1: i128 = tdiv128((ocx as i128) * (ocx as i128), 65536);
        let c2: i128 = tdiv128((ocy as i128) * (ocy as i128), 65536);
        let c3: i128 = tdiv128((ocz as i128) * (ocz as i128), 65536);
        let c4: i128 = tdiv128((rad as i128) * (rad as i128), 65536);
        proof {
            assert(c1 == tdiv((ocx as int) * (ocx as int), 65536));
            assert(-0x10000000000000000000 <= c1 <= 0x10000000000000000000);
            assert(-0x10000000000000000000 <= c2 <= 0x10000000000000000000);
            assert(-0x10000000000000000000 <= c3 <= 0x10000000000000000000);
            assert(-0x10000000000000000000 <= c4 <= 0x10000000000000000000);
        }
        let cc128: i128 = c1 + c2 + c3 - c4;
        proof {
            assert(cc128 == sph_cc(c, radi, ray));
            assert(-0x40000000000000000000 <= cc128 <= 0x40000000000000000000);
        }

        if a128 == 0 {
            return None;
        }

        // discriminant = half_b^2 - a c
        proof {
            lemma_mul_bound(hb128 as int, hb128 as int, 0x1000000000000000, 0x1000000000000000);
            lemma_mul_bound(a128 as int, cc128 as int, 0x40000000000, 0x40000000000000000000);
            lemma_tdiv_range(
                (hb128 as int) * (hb128 as int),
                0x1000000000000000000000000000000,
            );
            lemma_tdiv_range((a128 as int) * (cc128 as int), 0x1000000000000000000000000000000int);
        }
        let disc128: i128 = tdiv128(hb128 * hb128, 65536) - tdiv128(a128 * cc128, 65536);
        proof {
            assert(disc128 == sph_disc(c, radi, ray));
            assert(-0x2000000000000000000000000000 < disc128 < 0x2000000000000000000000000000);
        }
        if disc128 < 0 {
            return None;
        }

        // square root of the discriminant
        let su: u64 = isqrt128((disc128 as u128) * 65536);
        proof {
            lemma_isqrt_bounds(((disc128 as int) * 65536) as nat);
            let d16: int = (disc128 as int) * 65536;
            assert(d16 >= 0);
            assert((su as int) * (su as int) <= d16);
            assert(d16 < 0x20000000000000000000000000000000int);
            assert((su as int) < 0x8000000000000000) by (nonlinear_arith)
                requires
                    (su as int) * (su as int) <= d16,
                    0 <= d16 < 0x20000000000000000000000000000000int,
            {}
            assert(su as int == sph_sqrt_disc(c, radi, ray));
        }
        let sq128: i128 = su as i128;

        // The smaller root first, then the larger.
        let tn128: i128 = t_min as i128;
        let tx128: i128 = t_max as i128;
        let num1: i128 = -hb128 - sq128;
        let root1: i128 = tdiv128(num1 * 65536, a128);
        proof {
            assert(root1 == sph_root1(c, radi, ray));
        }
        let root: i128;
        if tn128 <= root1 && root1 <= tx128 {
            root = root1;
        } else {
            let num2: i128 = -hb128 + sq128;
            let root2: i128 = tdiv128(num2 * 65536, a128);
            proof {
                assert(root2 == sph_root2(c, radi, ray));
            }
            if !(tn128 <= root2 && root2 <= tx128) {
                return None;
            }
            root = root2;
        }
        proof {
            assert(spec_sphere_hit_t(c, radi, ray, t_min as int, t_max as int) == Some(
                root as int,
            ));
        }
        let t: i64 = root as i64;

        // The hit point (clamped to the supported range) and the outward
        // normal.
        let pr: Vec3 = ray.at(t);
        proof {
            lemma_mul_bound(t as int, ray.direct.x as int, 0x4000000000, FP_COORD_MAX as int);
            lemma_mul_bound(t as int, ray.direct.y as int, 0x4000000000, FP_COORD_MAX as int);
            lemma_mul_bound(t as int, ray.direct.z as int, 0x4000000000, FP_COORD_MAX as int);
            crate::math::fixed::lemma_fmul_range(
                t as int,
                ray.direct.x as int,
                0x40000000000000000,
            );
            crate::math::fixed::lemma_fmul_range(
                t as int,
                ray.direct.y as int,
                0x40000000000000000,
            );
            crate::math::fixed::lemma_fmul_range(
                t as int,
                ray.direct.z as int,
                0x40000000000000000,
            );
            assert(vec_in(pr, 0x8000000000000));
        }
        let p = Vec3 {
            x: clamp_coord(pr.x),
            y: clamp_coord(pr.y),
            z: clamp_coord(pr.z),
        };
        proof {
            assert(tup_of(p) == sph_point(ray, t as int));
        }
        let owx: i64 = normal_component(p.x, c.x, rad);
        let owy: i64 = normal_component(p.y, c.y, rad);
        let owz: i64 = normal_component(p.z, c.z, rad);
        let ow = Vec3 { x: owx, y: owy, z: owz };
        proof {
            assert(tup_of(ow) == sph_outward(c, radi, ray, t as int));
        }
        let rec = HitRecord::new(ray, p, t, ow);
        proof {
            assert(spec_dot3(ray.direct, ow) == dot3t(
                tup_of(ray.direct),
                sph_outward(c, radi, ray, t as int),
            ));
            assert(rec.front_face == sph_front_face(c, radi, ray, t as int));
            assert(tup_of(rec.normal) == sph_normal(c, radi, ray, t as int));
        }
        Some(rec)
    }
}

/// One component of the hit point, clamped to the supported range.
fn clamp_coord(v: i64) -> (r: i64)
    ensures
        r as int == clamp_i(v as int, 0x200000000000),
{
    if v > 0x200000000000 {
        0x200000000000
    } else if v < -0x200000000000 {
        -0x200000000000
    } else {
        v
    }
}

/// One clamped component of the outward normal.
fn normal_component(p: i64, c: i64, rad: i64) -> (r: i64)
    requires
        rad >= 1,
        -0x200000000000 <= p <= 0x200000000000,
        -0x20000000 <= c <= 0x20000000,
    ensures
        r as int == clamp_i(fdiv(p - c, rad as int), FP_NORMAL_MAX as int),
{
    let diff: i128 = (p as i128) - (c as i128);
    let q: i128 = tdiv128(diff * 65536, rad as i128);
    if q > FP_NORMAL_MAX as i128 {
        FP_NORMAL_MAX
    } else if q < -(FP_NORMAL_MAX as i128) {
        -FP_NORMAL_MAX
    } else {
        q as i64
    }
}

/// Bound for products of two scene-scale values.
proof fn lemma_prod_bound(a: int, b: int)
    requires
        -0x400000000000 <= a <= 0x400000000000,
        -0x400000000000 <= b <= 0x400000000000,
    ensures
        -0x100000000000000000000000 <= a * b <= 0x100000000000000000000000,
        -0x10000000000000000000 <= tdiv(a * b, 65536) <= 0x10000000000000000000,
{
    lemma_mul_bound(a, b, 0x400000000000, 0x400000000000);
    lemma_tdiv_range(a * b, 0x100000000000000000000000);
}

/// Bound for products of two direction-scale values.
proof fn lemma_dir_prod_bound(a: int, b: int)
    requires
        -0x10000000 <= a <= 0x10000000,
        -0x10000000 <= b <= 0x10000000,
    ensures
        -0x100000000000000 <= a * b <= 0x100000000000000,
        -0x10000000000 <= tdiv(a * b, 65536) <= 0x10000000000,
{
    lemma_mul_bound(a, b, 0x10000000, 0x10000000);
    lemma_tdiv_range(a * b, 0x100000000000000);
}

/// Bound for a scene-scale value times a direction-scale value.
proof fn lemma_mixed_prod_bound(a: int, b: int)
    requires
        -0x400000000000 <= a <= 0x400000000000,
        -0x10000000 <= b <= 0x10000000,
    ensures
        -0x4000000000000000000 <= a * b <= 0x4000000000000000000,
        -0x400000000000000 <= tdiv(a * b, 65536) <= 0x400000000000000,
{
    lemma_mul_bound(a, b, 0x400000000000, 0x10000000);
    lemma_tdiv_range(a * b, 0x4000000000000000000);
}

/// How the accepted hit parameter behaves when the upper end of the range
/// is narrowed: a hit found under the narrower range is exactly the hit
/// under the wider one, and a hit that only the wider range finds lies
/// beyond the narrower bound.
pub proof fn lemma_sphere_hit_narrow(c: Vec3, rad: int, ray: Ray, tn: int, tc: int, tx: int)
    requires
        tc <= tx,
    ensures
        spec_sphere_hit_t(c, rad, ray, tn, tc).is_some() ==> spec_sphere_hit_t(
            c,
            rad,
            ray,
            tn,
            tx,
        ) == spec_sphere_hit_t(c, rad, ray, tn, tc),
        spec_sphere_hit_t(c, rad, ray, tn, tc).is_none() && spec_sphere_hit_t(
            c,
            rad,
            ray,
            tn,
            tx,
        ).is_some() ==> spec_sphere_hit_t(c, rad, ray, tn, tx)->Some_0 > tc,
{
    let a = sph_a(ray);
    if a != 0 && sph_disc(c, rad, ray) >= 0 {
        // The direction's squared length is a sum of nonnegative terms.
        lemma_square_nonneg(ray.direct.x as int);
        lemma_square_nonneg(ray.direct.y as int);
        lemma_square_nonneg(ray.direct.z as int);
        lemma_tdiv_magnitude((ray.direct.x as int) * (ray.direct.x as int), 65536);
        lemma_tdiv_magnitude((ray.direct.y as int) * (ray.direct.y as int), 65536);
        lemma_tdiv_magnitude((ray.direct.z as int) * (ray.direct.z as int), 65536);
        assert(a > 0);
        let hb = sph_half_b(c, ray);
        let sq = sph_sqrt_disc(c, rad, ray);
        assert(sq >= 0);
        let r1 = sph_root1(c, rad, ray);
        let r2 = sph_root2(c, rad, ray);
        assert((-hb - sq) * 65536 <= (-hb + sq) * 65536);
        lemma_tdiv_monotone((-hb - sq) * 65536, (-hb + sq) * 65536, a);
        assert(r1 <= r2);
    }
}

} // verus!
