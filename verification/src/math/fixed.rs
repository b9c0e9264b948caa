//! Fixed-point scalar arithmetic.
//!
//! Every geometric and colour quantity in this crate is an `i64` holding a
//! real value scaled by [`FP_ONE`] (16 fractional bits). The spec functions
//! here give the exact mathematical meaning of each operation, including
//! its rounding: multiplication and division truncate toward zero, and the
//! square root rounds down.

use vstd::prelude::*;

verus! {

/// Number of fixed-point units in one whole unit (16 fractional bits).
pub const FP_ONE: i64 = 65536;

/// One half, in fixed-point units.
pub const FP_HALF: i64 = 32768;

/// Bound on the magnitude of scalars a scene may contain (4096 whole units).
pub const FP_COORD_MAX: i64 = 0x10000000;

/// The renderer's horizon: the largest hit parameter it accepts, four
/// million whole units — far beyond any scene the coordinate bounds
/// allow, so it stands in for an unbounded range.
pub const FP_T_MAX: i64 = 0x4000000000;

/// Division truncating toward zero, for a positive divisor.
pub open spec fn tdiv(a: int, b: int) -> int
    recommends
        b > 0,
{
    if a >= 0 {
        a / b
    } else {
        -((-a) / b)
    }
}

/// Division truncating toward zero, for any nonzero divisor.
pub open spec fn tdiv_s(a: int, b: int) -> int
    recommends
        b != 0,
{
    if b > 0 {
        tdiv(a, b)
    } else {
        -tdiv(a, -b)
    }
}

/// The fixed-point product of `a` and `b`.
pub open spec fn fmul(a: int, b: int) -> int {
    tdiv(a * b, FP_ONE as int)
}

/// The fixed-point quotient of `a` by `b`.
pub open spec fn fdiv(a: int, b: int) -> int
    recommends
        b != 0,
{
    tdiv_s(a * (FP_ONE as int), b)
}

/// The integer square root: the greatest `r` with `r * r <= x`.
pub open spec fn isqrt(x: nat) -> nat
    decreases x,
{
    if x == 0 {
        0
    } else {
        let r = isqrt((x - 1) as nat);
        if (r + 1) * (r + 1) <= x {
            r + 1
        } else {
            r
        }
    }
}

/// The fixed-point square root of a nonnegative fixed-point value.
pub open spec fn fsqrt(x: int) -> int
    recommends
        x >= 0,
{
    isqrt((x * (FP_ONE as int)) as nat) as int
}

/// `isqrt` is exactly the rounded-down square root.
pub proof fn lemma_isqrt_bounds(x: nat)
    ensures
        isqrt(x) * isqrt(x) <= x,
        x < (isqrt(x) + 1) * (isqrt(x) + 1),
    decreases x,
{
    let s = isqrt(x);
    if x > 0 {
        lemma_isqrt_bounds((x - 1) as nat);
        let r = isqrt((x - 1) as nat);
        assert(r * r <= x - 1 < (r + 1) * (r + 1));
        if (r + 1) * (r + 1) <= x {
            assert(s == r + 1);
            assert(x < (r + 2) * (r + 2)) by (nonlinear_arith)
                requires
                    x - 1 < (r + 1) * (r + 1),
                    x >= 1,
                    r >= 0,
            {}
            assert(s * s <= x);
            assert(x < (s + 1) * (s + 1)) by (nonlinear_arith)
                requires
                    s == r + 1,
                    x - 1 < (r + 1) * (r + 1),
                    x >= 1,
                    r >= 0,
            {}
        } else {
            assert(s == r);
            assert(s * s <= x);
            assert(x < (s + 1) * (s + 1)) by (nonlinear_arith)
                requires
                    s == r,
                    x < (r + 1) * (r + 1),
            {}
        }
    } else {
        assert(s == 0);
        assert(s * s <= x);
        assert(x < (s + 1) * (s + 1)) by (nonlinear_arith)
            requires
                s == 0,
                x == 0,
        {}
    }
}

/// No two different values satisfy the square-root bounds.
pub proof fn lemma_isqrt_unique(x: nat, r: nat)
    requires
        r * r <= x,
        x < (r + 1) * (r + 1),
    ensures
        r == isqrt(x),
{
    let s = isqrt(x);
    lemma_isqrt_bounds(x);
    if r < s {
        assert(false) by (nonlinear_arith)
            requires
                r < s,
                s * s <= x,
                x < (r + 1) * (r + 1),
        {}
    }
    if s < r {
        assert(false) by (nonlinear_arith)
            requires
                s < r,
                r * r <= x,
                x < (s + 1) * (s + 1),
        {}
    }
}

/// Bounds on two factors bound their product.
pub proof fn lemma_mul_bound(a: int, b: int, c: int, d: int)
    by (nonlinear_arith)
    requires
        -c <= a <= c,
        -d <= b <= d,
        0 <= c,
        0 <= d,
    ensures
        -(c * d) <= a * b <= c * d,
{
}

/// A square is never negative.
pub proof fn lemma_square_nonneg(a: int)
    by (nonlinear_arith)
    ensures
        a * a >= 0,
{
}

/// A bound on a product bounds the fixed-point product.
pub proof fn lemma_fmul_range(a: int, b: int, m: int)
    requires
        -m <= a * b <= m,
        0 <= m,
    ensures
        -(m / 65536) <= fmul(a, b) <= m / 65536,
{
    let p = a * b;
    if p >= 0 {
        assert(p / 65536 <= m / 65536) by (nonlinear_arith)
            requires
                0 <= p <= m,
        {}
        assert(p / 65536 >= 0) by (nonlinear_arith)
            requires
                p >= 0,
        {}
    } else {
        assert((-p) / 65536 <= m / 65536) by (nonlinear_arith)
            requires
                0 <= -p <= m,
        {}
        assert((-p) / 65536 >= 0) by (nonlinear_arith)
            requires
                -p >= 0,
        {}
    }
}

/// A bound on the dividend bounds a truncating division by `FP_ONE`.
pub proof fn lemma_tdiv_range(p: int, m: int)
    requires
        -m <= p <= m,
        0 <= m,
    ensures
        -(m / 65536) <= tdiv(p, 65536) <= m / 65536,
{
    if p >= 0 {
        assert(p / 65536 <= m / 65536) by (nonlinear_arith)
            requires
                0 <= p <= m,
        {}
        assert(p / 65536 >= 0) by (nonlinear_arith)
            requires
                p >= 0,
        {}
    } else {
        assert((-p) / 65536 <= m / 65536) by (nonlinear_arith)
            requires
                0 <= -p <= m,
        {}
        assert((-p) / 65536 >= 0) by (nonlinear_arith)
            requires
                -p >= 0,
        {}
    }
}

/// Truncating division is monotone in the dividend.
pub proof fn lemma_tdiv_monotone(a1: int, a2: int, b: int)
    requires
        a1 <= a2,
        b >= 1,
    ensures
        tdiv(a1, b) <= tdiv(a2, b),
{
    if a1 >= 0 {
        vstd::arithmetic::div_mod::lemma_div_is_ordered(a1, a2, b);
    } else if a2 < 0 {
        vstd::arithmetic::div_mod::lemma_div_is_ordered(-a2, -a1, b);
    } else {
        lemma_tdiv_magnitude(a1, b);
        lemma_tdiv_magnitude(a2, b);
    }
}

/// A strict bound on the dividend gives a strict bound on the quotient.
pub proof fn lemma_tdiv_lt(a: int, b: int, m: int)
    requires
        1 <= b,
        0 <= m,
        -(b * m) < a < b * m,
    ensures
        -m < tdiv(a, b) < m,
{
    if a >= 0 {
        vstd::arithmetic::div_mod::lemma_fundamental_div_mod(a, b);
        let q = a / b;
        assert(a == b * q + a % b);
        if q >= m {
            assert(b * q >= b * m) by (nonlinear_arith)
                requires
                    q >= m,
                    b >= 1,
            {}
            assert(a % b >= 0) by (nonlinear_arith)
                requires
                    b >= 1,
            {}
            assert(false);
        }
        assert(tdiv(a, b) == q);
        assert(-m < q) by {
            assert(q >= 0) by (nonlinear_arith)
                requires
                    a >= 0,
                    b >= 1,
                    q == a / b,
            {}
        }
    } else {
        let n = -a;
        vstd::arithmetic::div_mod::lemma_fundamental_div_mod(n, b);
        let q = n / b;
        assert(n == b * q + n % b);
        if q >= m {
            assert(b * q >= b * m) by (nonlinear_arith)
                requires
                    q >= m,
                    b >= 1,
            {}
            assert(n % b >= 0) by (nonlinear_arith)
                requires
                    b >= 1,
            {}
            assert(false);
        }
        assert(q >= 0) by (nonlinear_arith)
            requires
                n >= 0,
                b >= 1,
                q == n / b,
        {}
        assert(tdiv(a, b) == -q);
    }
}

/// Truncating division of a 128-bit value by a positive divisor.
pub(crate) fn tdiv128(a: i128, b: i128) -> (r: i128)
    requires
        b > 0,
        -0x40000000000000000000000000000000 < a,
    ensures
        r == tdiv(a as int, b as int),
{
    if a >= 0 {
        ((a as u128) / (b as u128)) as i128
    } else {
        let neg: u128 = (-a) as u128;
        -((neg / (b as u128)) as i128)
    }
}

/// Truncating division of two fixed-point values as plain integers
/// (no rescaling), for a positive divisor.
pub fn tdiv64(a: i64, b: i64) -> (r: i64)
    requires
        b > 0,
    ensures
        r == tdiv(a as int, b as int),
{
    let q: i128 = tdiv128(a as i128, b as i128);
    proof {
        lemma_tdiv_magnitude(a as int, b as int);
    }
    q as i64
}

/// The magnitude of a truncating quotient never exceeds the dividend's.
pub proof fn lemma_tdiv_magnitude(a: int, b: int)
    requires
        b >= 1,
    ensures
        a >= 0 ==> 0 <= tdiv(a, b) <= a,
        a < 0 ==> a <= tdiv(a, b) <= 0,
{
    if a >= 0 {
        assert(0 <= a / b <= a) by (nonlinear_arith)
            requires
                a >= 0,
                b >= 1,
        {}
    } else {
        assert(0 <= (-a) / b <= -a) by (nonlinear_arith)
            requires
                -a >= 0,
                b >= 1,
        {}
    }
}

/// Fixed-point multiplication.
pub fn mul_fp(a: i64, b: i64) -> (r: i64)
    requires
        -0x40000000000000000000 <= (a as int) * (b as int) <= 0x40000000000000000000,
    ensures
        r == fmul(a as int, b as int),
{
    let p: i128 = (a as i128) * (b as i128);
    let q: i128 = tdiv128(p, 65536);
    q as i64
}

/// Fixed-point division by a nonzero divisor.
pub fn div_fp(a: i64, b: i64) -> (r: i64)
    requires
        b != 0,
        -0x400000000000 <= a <= 0x400000000000,
    ensures
        r == fdiv(a as int, b as int),
{
    let num: i128 = (a as i128) * 65536;
    proof {
        if b > 0 {
            lemma_tdiv_magnitude(num as int, b as int);
        } else {
            lemma_tdiv_magnitude(num as int, -(b as int));
        }
    }
    if b > 0 {
        tdiv128(num, b as i128) as i64
    } else {
        let q: i128 = tdiv128(num, -(b as i128));
        (-q) as i64
    }
}

/// Integer square root of a 128-bit value.
pub(crate) fn isqrt128(x: u128) -> (r: u64)
    ensures
        r as nat == isqrt(x as nat),
{
    let mut lo: u128 = 0;
    let mut hi: u128 = 0x10000000000000000;
    proof {
        assert((0x10000000000000000 as int) * (0x10000000000000000 as int) > x as int);
    }
    while lo + 1 < hi
        invariant
            lo < hi <= 0x10000000000000000,
            (lo as nat) * (lo as nat) <= x as nat,
            (x as nat) < (hi as nat) * (hi as nat),
        decreases hi - lo,
    {
        let mid: u128 = lo + (hi - lo) / 2;
        proof {
            assert((mid as nat) * (mid as nat) < 0x100000000000000000000000000000000nat)
                by (nonlinear_arith)
                requires
                    mid < 0x10000000000000000,
            {}
        }
        if mid * mid <= x {
            lo = mid;
        } else {
            hi = mid;
        }
    }
    proof {
        lemma_isqrt_unique(x as nat, lo as nat);
    }
    lo as u64
}

/// Fixed-point square root of a nonnegative value.
pub fn sqrt_fp(v: i64) -> (r: i64)
    requires
        0 <= v,
    ensures
        r == fsqrt(v as int),
{
    let x: u128 = (v as u128) * 65536;
    let r: u64 = isqrt128(x);
    proof {
        lemma_isqrt_bounds(x as nat);
        assert((r as nat) < 0x10000000000nat) by (nonlinear_arith)
            requires
                (r as nat) * (r as nat) <= x as nat,
                (x as nat) < 0x100000000000000000000nat,
        {}
    }
    r as i64
}

} // verus!
