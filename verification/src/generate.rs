//! The `generate` subcommand's computations: test images generated from
//! formulas rather than scenes.

use vstd::prelude::*;

use crate::math::fixed::{lemma_tdiv_lt, lemma_tdiv_magnitude, tdiv, tdiv64};

verus! {

/// Errors for the generation commands: missing or uncreatable output
/// directories, or a failed image write.
#[derive(Clone, Debug)]
pub enum Error {
    /// Failed to create missing directories.
    FixDirectories,
    /// The output directory was not found and creating it was not asked.
    MissingDirectories(String),
    /// Failed to save the generated image at the given path.
    ImageSaveFailed(String),
}

/// One channel of the gradient: the coordinate scaled to 255 over its
/// dimension and rounded to the nearest whole number.
pub open spec fn spec_grad_ch(p: int, d: int) -> int
    recommends
        d >= 2,
{
    tdiv(510 * p + (d - 1), 2 * (d - 1))
}

/// Whether the four bytes of gradient pixel `(x, row)` hold the red ramp
/// along X, the green ramp along the (flipped) Y, a quarter blue and
/// full alpha.
pub open spec fn grad_ok(out: Seq<u8>, dims: (u32, u32), x: int, row: int) -> bool {
    let base = 4 * (row * dims.0 as int + x);
    &&& 0 <= base
    &&& base + 3 < out.len()
    &&& out[base] == spec_grad_ch(x, dims.0 as int)
    &&& out[base + 1] == spec_grad_ch(dims.1 as int - 1 - row, dims.1 as int)
    &&& out[base + 2] == 64
    &&& out[base + 3] == 255
}

/// One rounded gradient channel.
fn grad_ch(p: u32, d: u32) -> (r: u8)
    requires
        2 <= d <= 4096,
        p < d,
    ensures
        r == spec_grad_ch(p as int, d as int),
{
    let num: i64 = 510 * (p as i64) + (d as i64 - 1);
    let den: i64 = 2 * (d as i64 - 1);
    let v: i64 = tdiv64(num, den);
    proof {
        lemma_tdiv_magnitude(num as int, den as int);
        assert(num < den * 256) by (nonlinear_arith)
            requires
                num == 510 * (p as int) + (d as int - 1),
                den == 2 * (d as int - 1),
                p as int <= d as int - 1,
                d >= 2,
        {}
        lemma_tdiv_lt(num as int, den as int, 256);
    }
    v as u8
}

/// Generates the classic test gradient image: red ramps left to right,
/// green bottom to top, a constant quarter of blue, full alpha; rows
/// come top-of-picture first.
pub fn gradient_image(dims: (u32, u32)) -> (r: Vec<u8>)
    requires
        2 <= dims.0 <= 4096,
        2 <= dims.1 <= 4096,
    ensures
        r@.len() == 4 * dims.0 as int * dims.1 as int,
        forall|x: int, row: int|
            0 <= x < dims.0 as int && 0 <= row < dims.1 as int ==> #[trigger] grad_ok(
                r@,
                dims,
                x,
                row,
            ),
{
    let w = dims.0;
    let h = dims.1;
    let mut out: Vec<u8> = Vec::new();
    let mut row: u32 = 0;
    while row < h
        invariant
            2 <= w <= 4096,
            2 <= h <= 4096,
            dims == (w, h),
            0 <= row <= h,
            out@.len() == 4 * (row as int) * (w as int),
            forall|x: int, ry: int|
                0 <= x < w as int && 0 <= ry < row as int ==> #[trigger] grad_ok(out@, dims, x, ry),
        decreases h - row,
    {
        let gy: u32 = h - 1 - row;
        let gch: u8 = grad_ch(gy, h);
        let mut x: u32 = 0;
        while x < w
            invariant
                2 <= w <= 4096,
                2 <= h <= 4096,
                dims == (w, h),
                0 <= row < h,
                0 <= x <= w,
                gy == h - 1 - row,
                gch == spec_grad_ch(gy as int, h as int),
                out@.len() == 4 * (row as int) * (w as int) + 4 * (x as int),
                forall|xx: int, ry: int|
                    0 <= xx < w as int && 0 <= ry < row as int ==> #[trigger] grad_ok(
                        out@,
                        dims,
                        xx,
                        ry,
                    ),
                forall|xx: int|
                    0 <= xx < x as int ==> #[trigger] grad_ok(out@, dims, xx, row as int),
            decreases w - x,
        {
            let ghost before = out@;
            out.push(grad_ch(x, w));
            out.push(gch);
            out.push(64);
            out.push(255);
            proof {
                assert(4 * ((row as int) * (w as int) + (x as int)) == 4 * (row as int) * (w as int)
                    + 4 * (x as int)) by (nonlinear_arith) {}
                assert(grad_ok(out@, dims, x as int, row as int));
                assert forall|xx: int, ry: int|
                    0 <= xx < w as int && 0 <= ry < row as int implies #[trigger] grad_ok(
                    out@,
                    dims,
                    xx,
                    ry,
                ) by {
                    assert(grad_ok(before, dims, xx, ry));
                }
                assert forall|xx: int| 0 <= xx < x as int + 1 implies #[trigger] grad_ok(
                    out@,
                    dims,
                    xx,
                    row as int,
                ) by {
                    if xx < x as int {
                        assert(grad_ok(before, dims, xx, row as int));
                    }
                }
            }
            x = x + 1;
        }
        proof {
            assert(4 * (row as int + 1) * (w as int) == 4 * (row as int) * (w as int) + 4 * (
            w as int)) by (nonlinear_arith) {}
        }
        row = row + 1;
    }
    proof {
        assert(4 * (h as int) * (w as int) == 4 * (w as int) * (h as int)) by (nonlinear_arith) {}
        assert(4 * dims.0 as int * dims.1 as int == 4 * (w as int) * (h as int));
    }
    out
}

} // verus!
