//! 3D vectors over fixed-point scalars.

use vstd::prelude::*;

use crate::math::fixed::{
    fdiv, fmul, fsqrt, isqrt, lemma_fmul_range, lemma_isqrt_bounds, lemma_mul_bound,
    lemma_square_nonneg, lemma_tdiv_lt, lemma_tdiv_magnitude, div_fp, mul_fp, sqrt_fp, tdiv,
    FP_ONE,
};

verus! {

/// Bound within which a single vector component may lie for the vector
/// operations below to be exact and overflow-free.
pub const FP_OP_MAX: i64 = 0x4000000000;

/// Whether a scalar lies within `[-b, b]`.
pub open spec fn sb(v: int, b: int) -> bool {
    -b <= v <= b
}

/// A 3D vector of fixed-point scalars.
#[derive(Clone, Copy, Debug, PartialEq, Eq, Structural)]
pub struct Vec3 {
    /// The X-coordinate / index 0.
    pub x: i64,
    /// The Y-coordinate / index 1.
    pub y: i64,
    /// The Z-coordinate / index 2.
    pub z: i64,
}

/// Whether every component of a vector lies within `[-b, b]`.
pub open spec fn vec_in(v: Vec3, b: int) -> bool {
    sb(v.x as int, b) && sb(v.y as int, b) && sb(v.z as int, b)
}

/// The exact value of the fixed-point dot product of two vectors.
pub open spec fn spec_dot3(l: Vec3, r: Vec3) -> int {
    fmul(l.x as int, r.x as int) + fmul(l.y as int, r.y as int) + fmul(l.z as int, r.z as int)
}

/// The exact squared length of a vector.
pub open spec fn spec_length2(v: Vec3) -> int {
    spec_dot3(v, v)
}

/// The exact (rounded-down) length of a vector.
pub open spec fn spec_length(v: Vec3) -> int {
    fsqrt(spec_length2(v))
}

/// The exact unit vector: each component divided by the rounded length,
/// or the zero vector when the length rounds to zero.
pub open spec fn spec_unit_vec(v: Vec3) -> Vec3
    recommends
        vec_in(v, FP_OP_MAX as int),
{
    if spec_length(v) == 0 {
        Vec3 { x: 0i64, y: 0i64, z: 0i64 }
    } else {
        Vec3 {
            x: fdiv(v.x as int, spec_length(v)) as i64,
            y: fdiv(v.y as int, spec_length(v)) as i64,
            z: fdiv(v.z as int, spec_length(v)) as i64,
        }
    }
}

/// Each fixed-point product of two components within `FP_OP_MAX` lies
/// within `2^60`, so their sums cannot overflow.
proof fn lemma_component_product(a: int, b: int)
    requires
        sb(a, FP_OP_MAX as int),
        sb(b, FP_OP_MAX as int),
    ensures
        -0x10000000000000000000 <= a * b <= 0x10000000000000000000,
        -0x1000000000000000 <= fmul(a, b) <= 0x1000000000000000,
{
    lemma_mul_bound(a, b, FP_OP_MAX as int, FP_OP_MAX as int);
    lemma_fmul_range(a, b, 0x10000000000000000000);
}

/// Computes the dot product of two 3D vectors.
pub fn dot3(lhs: Vec3, rhs: Vec3) -> (r: i64)
    requires
        vec_in(lhs, FP_OP_MAX as int),
        vec_in(rhs, FP_OP_MAX as int),
    ensures
        r == spec_dot3(lhs, rhs),
        -0x3000000000000000 <= r <= 0x3000000000000000,
{
    proof {
        lemma_component_product(lhs.x as int, rhs.x as int);
        lemma_component_product(lhs.y as int, rhs.y as int);
        lemma_component_product(lhs.z as int, rhs.z as int);
    }
    let px: i64 = mul_fp(lhs.x, rhs.x);
    let py: i64 = mul_fp(lhs.y, rhs.y);
    let pz: i64 = mul_fp(lhs.z, rhs.z);
    px + py + pz
}

/// The exact value of the fixed-point cross product of two vectors.
pub open spec fn spec_cross3(l: Vec3, r: Vec3) -> (int, int, int) {
    (
        fmul(l.y as int, r.z as int) - fmul(l.z as int, r.y as int),
        fmul(l.z as int, r.x as int) - fmul(l.x as int, r.z as int),
        fmul(l.x as int, r.y as int) - fmul(l.y as int, r.x as int),
    )
}

/// Computes the cross product of two 3D vectors.
pub fn cross3(lhs: Vec3, rhs: Vec3) -> (r: Vec3)
    requires
        vec_in(lhs, FP_OP_MAX as int),
        vec_in(rhs, FP_OP_MAX as int),
    ensures
        r.x == spec_cross3(lhs, rhs).0,
        r.y == spec_cross3(lhs, rhs).1,
        r.z == spec_cross3(lhs, rhs).2,
{
    proof {
        lemma_component_product(lhs.x as int, rhs.y as int);
        lemma_component_product(lhs.x as int, rhs.z as int);
        lemma_component_product(lhs.y as int, rhs.x as int);
        lemma_component_product(lhs.y as int, rhs.z as int);
        lemma_component_product(lhs.z as int, rhs.x as int);
        lemma_component_product(lhs.z as int, rhs.y as int);
    }
    Vec3 {
        x: mul_fp(lhs.y, rhs.z) - mul_fp(lhs.z, rhs.y),
        y: mul_fp(lhs.z, rhs.x) - mul_fp(lhs.x, rhs.z),
        z: mul_fp(lhs.x, rhs.y) - mul_fp(lhs.y, rhs.x),
    }
}

impl Vec3 {
    /// Constructor for the Vec3 from its three coordinates.
    pub fn new(x: i64, y: i64, z: i64) -> (r: Vec3)
        ensures
            r == (Vec3 { x, y, z }),
    {
        Vec3 { x, y, z }
    }

    /// Constructor for the Vec3 that initializes it to all-zeroes.
    pub fn zeroes() -> (r: Vec3)
        ensures
            r == (Vec3 { x: 0i64, y: 0i64, z: 0i64 }),
    {
        Vec3 { x: 0, y: 0, z: 0 }
    }

    /// Returns whether this vector is (nearly) zero: every component is
    /// zero at the fixed-point resolution.
    pub fn is_nearly_zero(&self) -> (r: bool)
        ensures
            r == (self.x == 0 && self.y == 0 && self.z == 0),
    {
        self.x == 0 && self.y == 0 && self.z == 0
    }

    /// The component-wise negation.
    pub fn neg(&self) -> (r: Vec3)
        requires
            vec_in(*self, 0x4000000000000000),
        ensures
            r.x == -self.x && r.y == -self.y && r.z == -self.z,
    {
        Vec3 { x: -self.x, y: -self.y, z: -self.z }
    }

    /// The component-wise sum.
    pub fn add(&self, rhs: Vec3) -> (r: Vec3)
        requires
            vec_in(*self, 0x2000000000000000),
            vec_in(rhs, 0x2000000000000000),
        ensures
            r.x == self.x + rhs.x && r.y == self.y + rhs.y && r.z == self.z + rhs.z,
    {
        Vec3 { x: self.x + rhs.x, y: self.y + rhs.y, z: self.z + rhs.z }
    }

    /// The component-wise difference.
    pub fn sub(&self, rhs: Vec3) -> (r: Vec3)
        requires
            vec_in(*self, 0x2000000000000000),
            vec_in(rhs, 0x2000000000000000),
        ensures
            r.x == self.x - rhs.x && r.y == self.y - rhs.y && r.z == self.z - rhs.z,
    {
        Vec3 { x: self.x - rhs.x, y: self.y - rhs.y, z: self.z - rhs.z }
    }

    /// The vector scaled by a fixed-point scalar.
    pub fn mul_s(&self, k: i64) -> (r: Vec3)
        requires
            vec_in(*self, FP_OP_MAX as int),
            sb(k as int, FP_OP_MAX as int),
        ensures
            r.x == fmul(self.x as int, k as int),
            r.y == fmul(self.y as int, k as int),
            r.z == fmul(self.z as int, k as int),
    {
        proof {
            lemma_component_product(self.x as int, k as int);
            lemma_component_product(self.y as int, k as int);
            lemma_component_product(self.z as int, k as int);
        }
        Vec3 { x: mul_fp(self.x, k), y: mul_fp(self.y, k), z: mul_fp(self.z, k) }
    }

    /// The vector divided by a nonzero fixed-point scalar.
    pub fn div_s(&self, k: i64) -> (r: Vec3)
        requires
            vec_in(*self, 0x400000000000),
            k != 0,
        ensures
            r.x == fdiv(self.x as int, k as int),
            r.y == fdiv(self.y as int, k as int),
            r.z == fdiv(self.z as int, k as int),
    {
        Vec3 { x: div_fp(self.x, k), y: div_fp(self.y, k), z: div_fp(self.z, k) }
    }

    /// Computes the squared length of this vector.
    pub fn length2(&self) -> (r: i64)
        requires
            vec_in(*self, FP_OP_MAX as int),
        ensures
            r == spec_length2(*self),
            0 <= r <= 0x3000000000000000,
    {
        proof {
            lemma_square_nonneg(self.x as int);
            lemma_square_nonneg(self.y as int);
            lemma_square_nonneg(self.z as int);
            lemma_tdiv_magnitude((self.x as int) * (self.x as int), FP_ONE as int);
            lemma_tdiv_magnitude((self.y as int) * (self.y as int), FP_ONE as int);
            lemma_tdiv_magnitude((self.z as int) * (self.z as int), FP_ONE as int);
        }
        dot3(*self, *self)
    }

    /// Computes the length of this vector, rounded down.
    pub fn length(&self) -> (r: i64)
        requires
            vec_in(*self, FP_OP_MAX as int),
        ensures
            r == spec_length(*self),
            r >= 0,
    {
        let l2: i64 = self.length2();
        sqrt_fp(l2)
    }

    /// The number of elements in this vector.
    pub fn len(&self) -> (r: usize)
        ensures
            r == 3,
    {
        3
    }

    /// Returns the unit vector of this vector: each component divided by
    /// the (rounded) length.
    ///
    /// A vector whose length rounds to zero has no usable direction; it is
    /// returned as the zero vector rather than dividing by zero.
    pub fn unit(&self) -> (r: Vec3)
        requires
            vec_in(*self, FP_OP_MAX as int),
        ensures
            spec_length(*self) == 0 ==> r == (Vec3 { x: 0i64, y: 0i64, z: 0i64 }),
            spec_length(*self) != 0 ==> {
                &&& r.x == fdiv(self.x as int, spec_length(*self))
                &&& r.y == fdiv(self.y as int, spec_length(*self))
                &&& r.z == fdiv(self.z as int, spec_length(*self))
            },
            r == spec_unit_vec(*self),
            vec_in(r, 2 * (FP_ONE as int)),
    {
        let l2: i64 = self.length2();
        let len: i64 = sqrt_fp(l2);
        if len == 0 {
            Vec3 { x: 0, y: 0, z: 0 }
        } else {
            proof {
                lemma_unit_bound(*self, l2 as int, len as int);
            }
            let r = Vec3 { x: div_fp(self.x, len), y: div_fp(self.y, len), z: div_fp(self.z, len) };
            r
        }
    }
}

/// When a vector's rounded length is nonzero, each component is less than
/// twice the length, so the unit vector's components stay within two whole
/// units.
proof fn lemma_unit_bound(v: Vec3, l2: int, len: int)
    requires
        vec_in(v, FP_OP_MAX as int),
        l2 == spec_length2(v),
        len == fsqrt(l2),
        len >= 1,
        0 <= l2 <= 0x3000000000000000,
    ensures
        len >= 256,
        -2 * (FP_ONE as int) <= fdiv(v.x as int, len) <= 2 * (FP_ONE as int),
        -2 * (FP_ONE as int) <= fdiv(v.y as int, len) <= 2 * (FP_ONE as int),
        -2 * (FP_ONE as int) <= fdiv(v.z as int, len) <= 2 * (FP_ONE as int),
{
    let s = FP_ONE as int;
    lemma_isqrt_bounds((l2 * s) as nat);
    assert(len * len <= l2 * s < (len + 1) * (len + 1));
    // The length is at least one whole fixed-point step: l2 >= 1.
    if l2 == 0 {
        assert(isqrt(0) == 0);
        assert(false);
    }
    assert(len >= 256) by (nonlinear_arith)
        requires
            (len + 1) * (len + 1) > l2 * 65536,
            l2 >= 1,
            len >= 1,
    {}
    lemma_square_nonneg(v.x as int);
    lemma_square_nonneg(v.y as int);
    lemma_square_nonneg(v.z as int);
    lemma_tdiv_magnitude((v.x as int) * (v.x as int), FP_ONE as int);
    lemma_tdiv_magnitude((v.y as int) * (v.y as int), FP_ONE as int);
    lemma_tdiv_magnitude((v.z as int) * (v.z as int), FP_ONE as int);
    lemma_unit_component(v.x as int, l2, len);
    lemma_unit_component(v.y as int, l2, len);
    lemma_unit_component(v.z as int, l2, len);
}

/// A single component of the unit-vector bound.
proof fn lemma_unit_component(c: int, l2: int, len: int)
    requires
        sb(c, FP_OP_MAX as int),
        l2 >= tdiv(c * c, FP_ONE as int),
        l2 * (FP_ONE as int) < (len + 1) * (len + 1),
        len >= 256,
    ensures
        -2 * (FP_ONE as int) <= fdiv(c, len) <= 2 * (FP_ONE as int),
{
    let s = FP_ONE as int;
    lemma_square_nonneg(c);
    let q = (c * c) / s;
    vstd::arithmetic::div_mod::lemma_fundamental_div_mod(c * c, s);
    assert(tdiv(c * c, s) == q);
    assert(s * q >= c * c - s + 1);
    assert(c * c < 4 * (len * len)) by (nonlinear_arith)
        requires
            65536 * q >= c * c - 65535,
            l2 >= q,
            l2 * 65536 < (len + 1) * (len + 1),
            len >= 256,
    {}
    if c >= 2 * len {
        assert(c * c >= 4 * (len * len)) by (nonlinear_arith)
            requires
                c >= 2 * len,
                len >= 1,
        {}
        assert(false);
    }
    if c <= -2 * len {
        assert(c * c >= 4 * (len * len)) by (nonlinear_arith)
            requires
                c <= -2 * len,
                len >= 1,
        {}
        assert(false);
    }
    assert(-2 * len < c < 2 * len);
    assert(-(len * 131072) < c * 65536 < len * 131072) by (nonlinear_arith)
        requires
            -2 * len < c < 2 * len,
            len >= 1,
    {}
    lemma_tdiv_lt(c * 65536, len, 131072);
    assert(fdiv(c, len) == tdiv(c * 65536, len));
}

} // verus!
