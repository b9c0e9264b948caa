//! Axis-Aligned Bounding Boxes and their slab hit test.
//!
//! The hit test is carried out in exact rational arithmetic: a slab bound
//! `(a_i - o_i) / d_i` is kept as a numerator/denominator pair and compared
//! by cross-multiplication, so the test has a precise mathematical meaning:
//! the ray's parameter interval `[t_min, t_max]` meets the box's slab
//! interval on every axis with room to spare (the running interval must
//! stay non-degenerate, as in the classic slab method). Axes on which the
//! ray's direction is zero pass exactly when the origin lies between the
//! two slab planes.

use vstd::prelude::*;

use crate::math::ray::Ray;
use crate::math::vec3::{vec_in, Vec3};

verus! {

/// The smaller of two integers.
pub open spec fn smin(a: int, b: int) -> int {
    if a <= b {
        a
    } else {
        b
    }
}

/// The larger of two integers.
pub open spec fn smax(a: int, b: int) -> int {
    if a >= b {
        a
    } else {
        b
    }
}

/// Component `i` (0, 1 or 2) of a vector.
pub open spec fn vcomp(v: Vec3, i: int) -> int {
    if i == 0 {
        v.x as int
    } else if i == 1 {
        v.y as int
    } else {
        v.z as int
    }
}

/// The Axis-Aligned Bounding Box (AABB): a cheap pre-check before the
/// expensive exact hit computations. The two corners may come in either
/// order on each axis; the hit test accounts for both.
#[derive(Clone, Copy, Debug, PartialEq, Eq, Structural)]
pub struct AABB {
    /// One corner of the box.
    pub a: Vec3,
    /// The opposite corner of the box.
    pub b: Vec3,
}

/// The lower extent of a box on axis `i`.
pub open spec fn blo(bb: AABB, i: int) -> int {
    smin(vcomp(bb.a, i), vcomp(bb.b, i))
}

/// The upper extent of a box on axis `i`.
pub open spec fn bhi(bb: AABB, i: int) -> int {
    smax(vcomp(bb.a, i), vcomp(bb.b, i))
}

/// Whether `outer`'s extent contains `inner`'s on every axis.
pub open spec fn box_contains(outer: AABB, inner: AABB) -> bool {
    &&& blo(outer, 0) <= blo(inner, 0) && bhi(inner, 0) <= bhi(outer, 0)
    &&& blo(outer, 1) <= blo(inner, 1) && bhi(inner, 1) <= bhi(outer, 1)
    &&& blo(outer, 2) <= blo(inner, 2) && bhi(inner, 2) <= bhi(outer, 2)
}

/// `an/ad <= bn/bd` for positive denominators, by cross-multiplication.
pub open spec fn rat_le(an: int, ad: int, bn: int, bd: int) -> bool {
    an * bd <= bn * ad
}

/// `an/ad < bn/bd` for positive denominators, by cross-multiplication.
pub open spec fn rat_lt(an: int, ad: int, bn: int, bd: int) -> bool {
    an * bd < bn * ad
}

/// Whether slab index `i` contributes bounds: `-1` stands for the given
/// `[t_min, t_max]` range itself, `0..3` for an axis with nonzero direction.
pub open spec fn slab_active(ray: Ray, i: int) -> bool {
    i == -1 || vcomp(ray.direct, i) != 0
}

/// The denominator of slab index `i`'s bounds (always positive).
pub open spec fn slab_den(ray: Ray, i: int) -> int {
    if i == -1 {
        65536
    } else if vcomp(ray.direct, i) > 0 {
        vcomp(ray.direct, i)
    } else {
        -vcomp(ray.direct, i)
    }
}

/// The numerator of the lower bound of slab index `i`.
pub open spec fn slab_lower(bb: AABB, ray: Ray, tn: int, i: int) -> int {
    if i == -1 {
        tn
    } else if vcomp(ray.direct, i) > 0 {
        blo(bb, i) - vcomp(ray.origin, i)
    } else {
        vcomp(ray.origin, i) - bhi(bb, i)
    }
}

/// The numerator of the upper bound of slab index `i`.
pub open spec fn slab_upper(bb: AABB, ray: Ray, tx: int, i: int) -> int {
    if i == -1 {
        tx
    } else if vcomp(ray.direct, i) > 0 {
        bhi(bb, i) - vcomp(ray.origin, i)
    } else {
        vcomp(ray.origin, i) - blo(bb, i)
    }
}

/// An axis on which the ray's direction is zero passes exactly when the
/// origin lies between the two slab planes.
pub open spec fn zero_axis_ok(bb: AABB, ray: Ray, i: int) -> bool {
    vcomp(ray.direct, i) != 0 || (blo(bb, i) <= vcomp(ray.origin, i) <= bhi(bb, i))
}

/// One lower/upper bound pair in strict order.
pub open spec fn pair_ok(bb: AABB, ray: Ray, tn: int, tx: int, i: int, j: int) -> bool {
    rat_lt(
        slab_lower(bb, ray, tn, i),
        slab_den(ray, i),
        slab_upper(bb, ray, tx, j),
        slab_den(ray, j),
    )
}

/// The exact meaning of the slab hit test: every zero axis contains the
/// origin, and every lower bound (the range's own and each axis's) lies
/// strictly below every upper bound.
pub open spec fn spec_aabb_hit(bb: AABB, ray: Ray, tn: int, tx: int) -> bool {
    &&& zero_axis_ok(bb, ray, 0)
    &&& zero_axis_ok(bb, ray, 1)
    &&& zero_axis_ok(bb, ray, 2)
    &&& forall|i: int, j: int|
        -1 <= i < 3 && -1 <= j < 3 && slab_active(ray, i) && slab_active(ray, j)
            ==> #[trigger] pair_ok(bb, ray, tn, tx, i, j)
}

/// Rational comparison is transitive.
proof fn lemma_rat_le_trans(an: int, ad: int, bn: int, bd: int, cn: int, cd: int)
    by (nonlinear_arith)
    requires
        ad >= 1,
        bd >= 1,
        cd >= 1,
        rat_le(an, ad, bn, bd),
        rat_le(bn, bd, cn, cd),
    ensures
        rat_le(an, ad, cn, cd),
{
}

/// A bound below the running maximum stays below anything strictly above
/// it, and above the running minimum.
proof fn lemma_rat_sandwich(
    ln: int,
    ld: int,
    an: int,
    ad: int,
    bn: int,
    bd: int,
    un: int,
    ud: int,
)
    by (nonlinear_arith)
    requires
        ld >= 1,
        ad >= 1,
        bd >= 1,
        ud >= 1,
        rat_le(ln, ld, an, ad),
        rat_lt(an, ad, bn, bd),
        rat_le(bn, bd, un, ud),
    ensures
        rat_lt(ln, ld, un, ud),
{
}

/// Exact rational strict comparison by cross-multiplication.
fn rat_lt_exec(an: i64, ad: i64, bn: i64, bd: i64) -> (r: bool)
    requires
        ad >= 1,
        bd >= 1,
    ensures
        r == rat_lt(an as int, ad as int, bn as int, bd as int),
{
    proof {
        crate::math::fixed::lemma_mul_bound(
            an as int,
            bd as int,
            0x8000000000000000,
            0x8000000000000000,
        );
        crate::math::fixed::lemma_mul_bound(
            bn as int,
            ad as int,
            0x8000000000000000,
            0x8000000000000000,
        );
    }
    (an as i128) * (bd as i128) < (bn as i128) * (ad as i128)
}

/// The larger of two rationals, as a numerator/denominator pair.
fn rat_max(an: i64, ad: i64, bn: i64, bd: i64) -> (r: (i64, i64))
    requires
        ad >= 1,
        bd >= 1,
    ensures
        rat_le(an as int, ad as int, r.0 as int, r.1 as int),
        rat_le(bn as int, bd as int, r.0 as int, r.1 as int),
        rat_lt(an as int, ad as int, bn as int, bd as int) ==> r == (bn, bd),
        !rat_lt(an as int, ad as int, bn as int, bd as int) ==> r == (an, ad),
{
    if rat_lt_exec(an, ad, bn, bd) {
        (bn, bd)
    } else {
        (an, ad)
    }
}

/// The smaller of two rationals, as a numerator/denominator pair.
fn rat_min(an: i64, ad: i64, bn: i64, bd: i64) -> (r: (i64, i64))
    requires
        ad >= 1,
        bd >= 1,
    ensures
        rat_le(r.0 as int, r.1 as int, an as int, ad as int),
        rat_le(r.0 as int, r.1 as int, bn as int, bd as int),
        rat_lt(bn as int, bd as int, an as int, ad as int) ==> r == (bn, bd),
        !rat_lt(bn as int, bd as int, an as int, ad as int) ==> r == (an, ad),
{
    if rat_lt_exec(bn, bd, an, ad) {
        (bn, bd)
    } else {
        (an, ad)
    }
}

/// Component `i` of a vector, by index.
fn vget(v: Vec3, i: usize) -> (r: i64)
    requires
        i < 3,
    ensures
        r as int == vcomp(v, i as int),
{
    if i == 0 {
        v.x
    } else if i == 1 {
        v.y
    } else {
        v.z
    }
}

/// The smaller of two scalars.
fn min64(a: i64, b: i64) -> (r: i64)
    ensures
        r as int == smin(a as int, b as int),
{
    if a <= b {
        a
    } else {
        b
    }
}

/// The larger of two scalars.
fn max64(a: i64, b: i64) -> (r: i64)
    ensures
        r as int == smax(a as int, b as int),
{
    if a >= b {
        a
    } else {
        b
    }
}

/// The degenerate box at the origin.
pub open spec fn zero_box() -> AABB {
    AABB { a: Vec3 { x: 0i64, y: 0i64, z: 0i64 }, b: Vec3 { x: 0i64, y: 0i64, z: 0i64 } }
}

/// The exact merged box of two boxes: on every axis its extent is the
/// union's extent, whichever order each box's corners come in.
pub open spec fn spec_surround(b1: AABB, b2: AABB) -> AABB {
    AABB {
        a: Vec3 {
            x: smin(blo(b1, 0), blo(b2, 0)) as i64,
            y: smin(blo(b1, 1), blo(b2, 1)) as i64,
            z: smin(blo(b1, 2), blo(b2, 2)) as i64,
        },
        b: Vec3 {
            x: smax(bhi(b1, 0), bhi(b2, 0)) as i64,
            y: smax(bhi(b1, 1), bhi(b2, 1)) as i64,
            z: smax(bhi(b1, 2), bhi(b2, 2)) as i64,
        },
    }
}

/// Computes a bounding box surrounding the two given ones: on every axis
/// its extent is the union's extent, whichever order each box's corners
/// come in.
pub fn surround(b1: AABB, b2: AABB) -> (r: AABB)
    requires
        vec_in(b1.a, 0x1000000000000000),
        vec_in(b1.b, 0x1000000000000000),
        vec_in(b2.a, 0x1000000000000000),
        vec_in(b2.b, 0x1000000000000000),
    ensures
        r == spec_surround(b1, b2),
        blo(r, 0) == smin(blo(b1, 0), blo(b2, 0)),
        blo(r, 1) == smin(blo(b1, 1), blo(b2, 1)),
        blo(r, 2) == smin(blo(b1, 2), blo(b2, 2)),
        bhi(r, 0) == smax(bhi(b1, 0), bhi(b2, 0)),
        bhi(r, 1) == smax(bhi(b1, 1), bhi(b2, 1)),
        bhi(r, 2) == smax(bhi(b1, 2), bhi(b2, 2)),
        box_contains(r, b1),
        box_contains(r, b2),
        vec_in(r.a, 0x1000000000000000),
        vec_in(r.b, 0x1000000000000000),
{
    let lo = Vec3 {
        x: min64(min64(b1.a.x, b1.b.x), min64(b2.a.x, b2.b.x)),
        y: min64(min64(b1.a.y, b1.b.y), min64(b2.a.y, b2.b.y)),
        z: min64(min64(b1.a.z, b1.b.z), min64(b2.a.z, b2.b.z)),
    };
    let hi = Vec3 {
        x: max64(max64(b1.a.x, b1.b.x), max64(b2.a.x, b2.b.x)),
        y: max64(max64(b1.a.y, b1.b.y), max64(b2.a.y, b2.b.y)),
        z: max64(max64(b1.a.z, b1.b.z), max64(b2.a.z, b2.b.z)),
    };
    AABB { a: lo, b: hi }
}

impl AABB {
    /// Constructor for the AABB from its two (opposite) corners.
    pub fn new(a: Vec3, b: Vec3) -> (r: AABB)
        ensures
            r == (AABB { a, b }),
    {
        AABB { a, b }
    }

    /// Computes whether the given ray hits this box anywhere in the
    /// parameter range `[t_min, t_max]` (the slab method, in exact
    /// rational arithmetic).
    #[verifier::loop_isolation(false)]
    pub fn hit(&self, ray: Ray, t_min: i64, t_max: i64) -> (res: bool)
        requires
            vec_in(self.a, 0x200000000000),
            vec_in(self.b, 0x200000000000),
            vec_in(ray.origin, 0x200000000000),
            vec_in(ray.direct, 0x200000000000),
        ensures
            res == spec_aabb_hit(*self, ray, t_min as int, t_max as int),
    {
        let ghost bb = *self;
        let ghost tn = t_min as int;
        let ghost tx = t_max as int;
        let mut lon: i64 = t_min;
        let mut lod: i64 = 65536;
        let mut hin: i64 = t_max;
        let mut hid: i64 = 65536;
        let ghost mut gl: int = -1;
        let ghost mut gu: int = -1;
        let mut i: usize = 0;
        while i < 3
            invariant
                0 <= i <= 3,
                lod >= 1,
                hid >= 1,
                -1 <= gl < i as int,
                -1 <= gu < i as int,
                slab_active(ray, gl),
                slab_active(ray, gu),
                lon as int == slab_lower(bb, ray, tn, gl),
                lod as int == slab_den(ray, gl),
                hin as int == slab_upper(bb, ray, tx, gu),
                hid as int == slab_den(ray, gu),
                forall|j: int|
                    -1 <= j < i as int && slab_active(ray, j) ==> rat_le(
                        #[trigger] slab_lower(bb, ray, tn, j),
                        slab_den(ray, j),
                        lon as int,
                        lod as int,
                    ),
                forall|j: int|
                    -1 <= j < i as int && slab_active(ray, j) ==> rat_le(
                        hin as int,
                        hid as int,
                        #[trigger] slab_upper(bb, ray, tx, j),
                        slab_den(ray, j),
                    ),
                forall|j: int| 0 <= j < i as int ==> #[trigger] zero_axis_ok(bb, ray, j),
                i as int > 0 ==> rat_lt(lon as int, lod as int, hin as int, hid as int),
            decreases 3 - i as int,
        {
            let d: i64 = vget(ray.direct, i);
            let o: i64 = vget(ray.origin, i);
            let lo_i: i64 = min64(vget(self.a, i), vget(self.b, i));
            let hi_i: i64 = max64(vget(self.a, i), vget(self.b, i));
            if d == 0 {
                if !(lo_i <= o && o <= hi_i) {
                    proof {
                        assert(!zero_axis_ok(bb, ray, i as int));
                    }
                    return false;
                }
            } else {
                let den: i64 = if d > 0 {
                    d
                } else {
                    -d
                };
                let ln: i64 = if d > 0 {
                    lo_i - o
                } else {
                    o - hi_i
                };
                let un: i64 = if d > 0 {
                    hi_i - o
                } else {
                    o - lo_i
                };
                proof {
                    assert(ln as int == slab_lower(bb, ray, tn, i as int));
                    assert(un as int == slab_upper(bb, ray, tx, i as int));
                    assert(den as int == slab_den(ray, i as int));
                }
                let ghost old_lon = lon as int;
                let ghost old_lod = lod as int;
                let ghost old_hin = hin as int;
                let ghost old_hid = hid as int;
                let nlo = rat_max(lon, lod, ln, den);
                let nhi = rat_min(hin, hid, un, den);
                proof {
                    if rat_lt(old_lon, old_lod, ln as int, den as int) {
                        gl = i as int;
                    }
                    if rat_lt(un as int, den as int, old_hin, old_hid) {
                        gu = i as int;
                    }
                }
                lon = nlo.0;
                lod = nlo.1;
                hin = nhi.0;
                hid = nhi.1;
                proof {
                    assert forall|j: int|
                        -1 <= j < i as int + 1 && slab_active(ray, j) implies rat_le(
                        #[trigger] slab_lower(bb, ray, tn, j),
                        slab_den(ray, j),
                        lon as int,
                        lod as int,
                    ) by {
                        if j < i as int {
                            lemma_rat_le_trans(
                                slab_lower(bb, ray, tn, j),
                                slab_den(ray, j),
                                old_lon,
                                old_lod,
                                lon as int,
                                lod as int,
                            );
                        }
                    }
                    assert forall|j: int|
                        -1 <= j < i as int + 1 && slab_active(ray, j) implies rat_le(
                        hin as int,
                        hid as int,
                        #[trigger] slab_upper(bb, ray, tx, j),
                        slab_den(ray, j),
                    ) by {
                        if j < i as int {
                            lemma_rat_le_trans(
                                hin as int,
                                hid as int,
                                old_hin,
                                old_hid,
                                slab_upper(bb, ray, tx, j),
                                slab_den(ray, j),
                            );
                        }
                    }
                }
            }
            if !rat_lt_exec(lon, lod, hin, hid) {
                proof {
                    assert(pair_ok(bb, ray, tn, tx, gl, gu) == rat_lt(
                        lon as int,
                        lod as int,
                        hin as int,
                        hid as int,
                    ));
                }
                return false;
            }
            i = i + 1;
        }
        proof {
            assert forall|p: int, q: int|
                -1 <= p < 3 && -1 <= q < 3 && slab_active(ray, p) && slab_active(
                    ray,
                    q,
                ) implies #[trigger] pair_ok(bb, ray, tn, tx, p, q) by {
                lemma_rat_sandwich(
                    slab_lower(bb, ray, tn, p),
                    slab_den(ray, p),
                    lon as int,
                    lod as int,
                    hin as int,
                    hid as int,
                    slab_upper(bb, ray, tx, q),
                    slab_den(ray, q),
                );
            }
        }
        true
    }
}

/// A box that contains another is hit whenever the inner one is: pruning
/// by an enclosing box can never lose a hit.
pub proof fn lemma_aabb_hit_monotone(outer: AABB, inner: AABB, ray: Ray, tn: int, tx: int)
    requires
        box_contains(outer, inner),
        spec_aabb_hit(inner, ray, tn, tx),
    ensures
        spec_aabb_hit(outer, ray, tn, tx),
{
    assert forall|p: int, q: int|
        -1 <= p < 3 && -1 <= q < 3 && slab_active(ray, p) && slab_active(
            ray,
            q,
        ) implies #[trigger] pair_ok(outer, ray, tn, tx, p, q) by {
        assert(pair_ok(inner, ray, tn, tx, p, q));
        assert(slab_lower(outer, ray, tn, p) <= slab_lower(inner, ray, tn, p));
        assert(slab_upper(inner, ray, tx, q) <= slab_upper(outer, ray, tx, q));
        lemma_pair_widen(
            slab_lower(outer, ray, tn, p),
            slab_lower(inner, ray, tn, p),
            slab_den(ray, p),
            slab_upper(inner, ray, tx, q),
            slab_upper(outer, ray, tx, q),
            slab_den(ray, q),
        );
    }
}

/// Widening the bounds keeps a strict pair strict.
proof fn lemma_pair_widen(lo2: int, li: int, dl: int, ui: int, uo: int, du: int)
    by (nonlinear_arith)
    requires
        dl >= 1,
        du >= 1,
        lo2 <= li,
        ui <= uo,
        rat_lt(li, dl, ui, du),
    ensures
        rat_lt(lo2, dl, uo, du),
{
}

/// Reversing a ray's direction mirrors the slab test: the reversed ray
/// hits the same box over the mirrored parameter range.
pub proof fn lemma_aabb_hit_reverse(bb: AABB, ray: Ray, rev: Ray, tn: int, tx: int)
    requires
        rev.origin == ray.origin,
        rev.direct.x == -(ray.direct.x as int),
        rev.direct.y == -(ray.direct.y as int),
        rev.direct.z == -(ray.direct.z as int),
        vec_in(ray.direct, 0x1000000000000000),
    ensures
        spec_aabb_hit(bb, rev, -tx, -tn) == spec_aabb_hit(bb, ray, tn, tx),
{
    assert forall|i: int| -1 <= i < 3 implies #[trigger] slab_den(rev, i) == slab_den(ray, i)
        && slab_active(rev, i) == slab_active(ray, i) by {}
    assert forall|i: int|
        -1 <= i < 3 && slab_active(ray, i) implies #[trigger] slab_lower(bb, rev, -tx, i)
        == -slab_upper(bb, ray, tx, i) && slab_upper(bb, rev, -tn, i) == -slab_lower(
        bb,
        ray,
        tn,
        i,
    ) by {}
    if spec_aabb_hit(bb, ray, tn, tx) {
        assert forall|p: int, q: int|
            -1 <= p < 3 && -1 <= q < 3 && slab_active(rev, p) && slab_active(
                rev,
                q,
            ) implies #[trigger] pair_ok(bb, rev, -tx, -tn, p, q) by {
            assert(pair_ok(bb, ray, tn, tx, q, p));
            lemma_rat_neg(
                slab_lower(bb, ray, tn, q),
                slab_den(ray, q),
                slab_upper(bb, ray, tx, p),
                slab_den(ray, p),
            );
        }
        assert(spec_aabb_hit(bb, rev, -tx, -tn));
    }
    if spec_aabb_hit(bb, rev, -tx, -tn) {
        assert forall|p: int, q: int|
            -1 <= p < 3 && -1 <= q < 3 && slab_active(ray, p) && slab_active(
                ray,
                q,
            ) implies #[trigger] pair_ok(bb, ray, tn, tx, p, q) by {
            assert(pair_ok(bb, rev, -tx, -tn, q, p));
            lemma_rat_neg(
                slab_lower(bb, rev, -tx, q),
                slab_den(rev, q),
                slab_upper(bb, rev, -tn, p),
                slab_den(rev, p),
            );
        }
        assert(spec_aabb_hit(bb, ray, tn, tx));
    }
}

/// Negating both sides of a strict rational comparison swaps them.
proof fn lemma_rat_neg(an: int, ad: int, bn: int, bd: int)
    by (nonlinear_arith)
    requires
        rat_lt(an, ad, bn, bd),
    ensures
        rat_lt(-bn, bd, -an, ad),
{
}

} // verus!
