//! RGBA colours over fixed-point channels.

use vstd::prelude::*;

use crate::math::fixed::{
    fdiv, fmul, fsqrt, lemma_fmul_range, lemma_mul_bound, div_fp, mul_fp, sqrt_fp, tdiv, tdiv64,
    FP_ONE,
};
use crate::math::vec3::{sb, FP_OP_MAX};

verus! {

/// Defines an RGBA colour quadruplet.
///
/// A channel value of [`FP_ONE`] is full intensity; `0` is none.
#[derive(Clone, Copy, Debug, PartialEq, Eq, Structural)]
pub struct Colour {
    /// The red colour channel / index 0.
    pub r: i64,
    /// The green colour channel / index 1.
    pub g: i64,
    /// The blue colour channel / index 2.
    pub b: i64,
    /// The alpha channel / index 3.
    pub a: i64,
}

/// Whether every channel of a colour lies within `[-b, b]`.
pub open spec fn col_in(c: Colour, b: int) -> bool {
    sb(c.r as int, b) && sb(c.g as int, b) && sb(c.b as int, b) && sb(c.a as int, b)
}

/// Whether every channel of a colour lies within `[0, 1]`.
pub open spec fn col01(c: Colour) -> bool {
    &&& 0 <= c.r <= FP_ONE
    &&& 0 <= c.g <= FP_ONE
    &&& 0 <= c.b <= FP_ONE
    &&& 0 <= c.a <= FP_ONE
}

/// A channel clamped to the `[0, 1]` range.
pub open spec fn spec_clamp_ch(c: int) -> int {
    if c < 0 {
        0
    } else if c > FP_ONE as int {
        FP_ONE as int
    } else {
        c
    }
}

/// A channel corrected for gamma: its rounded-down square root, with
/// negative values (which only a clamp would remove anyway) taken as zero.
pub open spec fn spec_gamma_ch(c: int) -> int {
    if c < 0 {
        0
    } else {
        fsqrt(c)
    }
}

impl Colour {
    /// Constructor for the Colour from its four channels.
    pub fn new(red: i64, green: i64, blue: i64, alpha: i64) -> (c: Colour)
        ensures
            c == (Colour { r: red, g: green, b: blue, a: alpha }),
    {
        Colour { r: red, g: green, b: blue, a: alpha }
    }

    /// Constructor for the Colour that initializes it to all-zeroes.
    pub fn zeroes() -> (c: Colour)
        ensures
            c == (Colour { r: 0i64, g: 0i64, b: 0i64, a: 0i64 }),
    {
        Colour { r: 0, g: 0, b: 0, a: 0 }
    }

    /// Returns this Colour, but with the alpha set to full opacity.
    pub fn opaque(&self) -> (c: Colour)
        ensures
            c == (Colour { r: self.r, g: self.g, b: self.b, a: FP_ONE }),
    {
        Colour { r: self.r, g: self.g, b: self.b, a: FP_ONE }
    }

    /// Returns this Colour with all its channels clamped to `[0, 1]`.
    pub fn clamp(&self) -> (c: Colour)
        ensures
            c.r == spec_clamp_ch(self.r as int),
            c.g == spec_clamp_ch(self.g as int),
            c.b == spec_clamp_ch(self.b as int),
            c.a == spec_clamp_ch(self.a as int),
    {
        Colour {
            r: clamp_ch(self.r),
            g: clamp_ch(self.g),
            b: clamp_ch(self.b),
            a: clamp_ch(self.a),
        }
    }

    /// Returns this Colour corrected for gamma (square root per colour
    /// channel); the alpha channel is passed through as-is.
    pub fn gamma(&self) -> (c: Colour)
        ensures
            c.r == spec_gamma_ch(self.r as int),
            c.g == spec_gamma_ch(self.g as int),
            c.b == spec_gamma_ch(self.b as int),
            c.a == self.a,
    {
        Colour { r: gamma_ch(self.r), g: gamma_ch(self.g), b: gamma_ch(self.b), a: self.a }
    }

    /// The channel-wise negation.
    pub fn neg(&self) -> (c: Colour)
        requires
            col_in(*self, 0x4000000000000000),
        ensures
            c.r == -self.r && c.g == -self.g && c.b == -self.b && c.a == -self.a,
    {
        Colour { r: -self.r, g: -self.g, b: -self.b, a: -self.a }
    }

    /// The channel-wise sum.
    pub fn add(&self, rhs: Colour) -> (c: Colour)
        requires
            col_in(*self, 0x2000000000000000),
            col_in(rhs, 0x2000000000000000),
        ensures
            c.r == self.r + rhs.r,
            c.g == self.g + rhs.g,
            c.b == self.b + rhs.b,
            c.a == self.a + rhs.a,
    {
        Colour { r: self.r + rhs.r, g: self.g + rhs.g, b: self.b + rhs.b, a: self.a + rhs.a }
    }

    /// The channel-wise difference.
    pub fn sub(&self, rhs: Colour) -> (c: Colour)
        requires
            col_in(*self, 0x2000000000000000),
            col_in(rhs, 0x2000000000000000),
        ensures
            c.r == self.r - rhs.r,
            c.g == self.g - rhs.g,
            c.b == self.b - rhs.b,
            c.a == self.a - rhs.a,
    {
        Colour { r: self.r - rhs.r, g: self.g - rhs.g, b: self.b - rhs.b, a: self.a - rhs.a }
    }

    /// The channel-wise fixed-point product.
    pub fn mul(&self, rhs: Colour) -> (c: Colour)
        requires
            col_in(*self, FP_OP_MAX as int),
            col_in(rhs, FP_OP_MAX as int),
        ensures
            c.r == fmul(self.r as int, rhs.r as int),
            c.g == fmul(self.g as int, rhs.g as int),
            c.b == fmul(self.b as int, rhs.b as int),
            c.a == fmul(self.a as int, rhs.a as int),
    {
        proof {
            lemma_col_product(self.r as int, rhs.r as int);
            lemma_col_product(self.g as int, rhs.g as int);
            lemma_col_product(self.b as int, rhs.b as int);
            lemma_col_product(self.a as int, rhs.a as int);
        }
        Colour {
            r: mul_fp(self.r, rhs.r),
            g: mul_fp(self.g, rhs.g),
            b: mul_fp(self.b, rhs.b),
            a: mul_fp(self.a, rhs.a),
        }
    }

    /// The colour scaled by a fixed-point scalar.
    pub fn mul_s(&self, k: i64) -> (c: Colour)
        requires
            col_in(*self, FP_OP_MAX as int),
            sb(k as int, FP_OP_MAX as int),
        ensures
            c.r == fmul(self.r as int, k as int),
            c.g == fmul(self.g as int, k as int),
            c.b == fmul(self.b as int, k as int),
            c.a == fmul(self.a as int, k as int),
    {
        proof {
            lemma_col_product(self.r as int, k as int);
            lemma_col_product(self.g as int, k as int);
            lemma_col_product(self.b as int, k as int);
            lemma_col_product(self.a as int, k as int);
        }
        Colour {
            r: mul_fp(self.r, k),
            g: mul_fp(self.g, k),
            b: mul_fp(self.b, k),
            a: mul_fp(self.a, k),
        }
    }

    /// The channel-wise fixed-point quotient, for nonzero channels on the
    /// right-hand side.
    pub fn div(&self, rhs: Colour) -> (c: Colour)
        requires
            col_in(*self, 0x400000000000),
            rhs.r != 0 && rhs.g != 0 && rhs.b != 0 && rhs.a != 0,
        ensures
            c.r == fdiv(self.r as int, rhs.r as int),
            c.g == fdiv(self.g as int, rhs.g as int),
            c.b == fdiv(self.b as int, rhs.b as int),
            c.a == fdiv(self.a as int, rhs.a as int),
    {
        Colour {
            r: div_fp(self.r, rhs.r),
            g: div_fp(self.g, rhs.g),
            b: div_fp(self.b, rhs.b),
            a: div_fp(self.a, rhs.a),
        }
    }

    /// Every channel divided (truncating) by a positive whole count; used
    /// to average the accumulated samples of a pixel.
    pub fn scale_div(&self, n: i64) -> (c: Colour)
        requires
            n > 0,
        ensures
            c.r == tdiv(self.r as int, n as int),
            c.g == tdiv(self.g as int, n as int),
            c.b == tdiv(self.b as int, n as int),
            c.a == tdiv(self.a as int, n as int),
    {
        Colour {
            r: tdiv64(self.r, n),
            g: tdiv64(self.g, n),
            b: tdiv64(self.b, n),
            a: tdiv64(self.a, n),
        }
    }
}

/// Bound for products of two colour channels.
proof fn lemma_col_product(a: int, b: int)
    requires
        sb(a, FP_OP_MAX as int),
        sb(b, FP_OP_MAX as int),
    ensures
        -0x10000000000000000000 <= a * b <= 0x10000000000000000000,
        -0x1000000000000000 <= fmul(a, b) <= 0x1000000000000000,
{
    lemma_mul_bound(a, b, FP_OP_MAX as int, FP_OP_MAX as int);
    lemma_fmul_range(a, b, 0x10000000000000000000);
}

/// One channel clamped to `[0, 1]`.
fn clamp_ch(c: i64) -> (r: i64)
    ensures
        r == spec_clamp_ch(c as int),
{
    if c < 0 {
        0
    } else if c > FP_ONE {
        FP_ONE
    } else {
        c
    }
}

/// One channel corrected for gamma.
fn gamma_ch(c: i64) -> (r: i64)
    ensures
        r == spec_gamma_ch(c as int),
{
    if c < 0 {
        0
    } else {
        sqrt_fp(c)
    }
}

} // verus!
