//! The ray generator: the ordered sequence of camera rays to cast,
//! covering every pixel `n_samples` times, sample index fastest, then
//! the pixel's column, then its row.

use vstd::prelude::*;

use crate::common::random::{spec_rng_step, Rng};
use crate::math::camera::{cam_ok, spec_cast, Camera};
use crate::math::fixed::{fdiv, lemma_tdiv_lt, lemma_tdiv_magnitude, div_fp, tdiv};
use crate::math::ray::Ray;
use crate::specifications::objects::sphere::ray_ok;

verus! {

/// Whether a generator's parameters lie within the supported range.
pub open spec fn gen_ok(cam: Camera, dims: (u32, u32), n_samples: usize) -> bool {
    &&& cam_ok(cam)
    &&& 2 <= dims.0 <= 4096
    &&& 2 <= dims.1 <= 4096
    &&& 1 <= n_samples <= 0x100000
}

/// The logical viewport coordinate of pixel coordinate `p` jittered by
/// `jit`, normalized by the dimension `d`.
pub open spec fn spec_uv(p: int, jit: int, d: int) -> int
    recommends
        d >= 2,
{
    fdiv(p * 65536 + jit, (d - 1) * 65536)
}

/// The ray cast for base pixel `(px, py)` of a `dims`-sized viewport,
/// with jitter `(jx, jy)`.
pub open spec fn spec_gen_ray(
    cam: Camera,
    dims: (u32, u32),
    px: int,
    py: int,
    jx: int,
    jy: int,
) -> Ray {
    spec_cast(cam, spec_uv(px, jx, dims.0 as int), spec_uv(py, jy, dims.1 as int))
}

/// A jittered viewport coordinate stays within twice the unit range.
pub proof fn lemma_uv_bounds(p: int, jit: int, d: int)
    requires
        0 <= p < d,
        0 <= jit < 65536,
        2 <= d <= 4096,
    ensures
        0 <= spec_uv(p, jit, d) <= 2 * 65536,
{
    let num = (p * 65536 + jit) * 65536;
    let den = (d - 1) * 65536;
    assert(p * 65536 + jit < d * 65536) by (nonlinear_arith)
        requires
            p < d,
            jit < 65536,
    {}
    assert(num < den * (2 * 65536 + 1)) by (nonlinear_arith)
        requires
            p * 65536 + jit < d * 65536,
            d >= 2,
            num == (p * 65536 + jit) * 65536,
            den == (d - 1) * 65536,
    {}
    assert(num >= 0) by (nonlinear_arith)
        requires
            p >= 0,
            jit >= 0,
            num == (p * 65536 + jit) * 65536,
    {}
    lemma_tdiv_lt(num, den, 2int * 65536 + 1);
    lemma_tdiv_magnitude(num, den);
    assert(spec_uv(p, jit, d) == tdiv(num, den));
}

/// Computes the logical viewport coordinate of a jittered pixel
/// coordinate.
pub fn uv_coord(p: u32, jit: i64, d: u32) -> (r: i64)
    requires
        p < d,
        0 <= jit < 65536,
        2 <= d <= 4096,
    ensures
        r == spec_uv(p as int, jit as int, d as int),
        0 <= r <= 2 * 65536,
{
    proof {
        lemma_uv_bounds(p as int, jit as int, d as int);
    }
    let x_fp: i64 = (p as i64) * 65536 + jit;
    div_fp(x_fp, ((d - 1) as i64) * 65536)
}

/// The RayGenerator is a restartable source of rays: an internal cursor
/// walks all `n_samples * width * height` rays in order.
#[derive(Clone, Copy, Debug)]
pub struct RayGenerator {
    /// The current index of iteration.
    pub index: u64,
    /// The camera through which rays are cast.
    pub camera: Camera,
    /// The width and height of the image being generated.
    pub dims: (u32, u32),
    /// The number of rays cast per pixel.
    pub n_samples: usize,
}

impl RayGenerator {
    /// Constructor for the RayGenerator.
    pub fn new(camera: Camera, dims: (u32, u32), n_samples: usize) -> (r: RayGenerator)
        ensures
            r.index == 0,
            r.camera == camera,
            r.dims == dims,
            r.n_samples == n_samples,
    {
        RayGenerator { index: 0, camera, dims, n_samples }
    }

    /// The total number of rays this generator walks.
    pub fn total(&self) -> (r: u64)
        requires
            gen_ok(self.camera, self.dims, self.n_samples),
        ensures
            r == self.n_samples as int * self.dims.0 as int * self.dims.1 as int,
            r <= 0x100000000000,
    {
        proof {
            assert(self.n_samples as int * self.dims.0 as int <= 0x100000000) by (nonlinear_arith)
                requires
                    1 <= self.n_samples <= 0x100000,
                    2 <= self.dims.0 <= 4096,
            {}
            assert(self.n_samples as int * self.dims.0 as int * self.dims.1 as int
                <= 0x100000000000) by (nonlinear_arith)
                requires
                    1 <= self.n_samples <= 0x100000,
                    2 <= self.dims.0 <= 4096,
                    2 <= self.dims.1 <= 4096,
            {}
            assert(self.n_samples as int * self.dims.0 as int >= 0) by (nonlinear_arith)
                requires
                    self.n_samples >= 1,
                    self.dims.0 >= 2,
            {}
            assert((self.n_samples as int * self.dims.0 as int) * self.dims.1 as int >= 0)
                by (nonlinear_arith)
                requires
                    self.n_samples as int * self.dims.0 as int >= 0,
                    self.dims.1 >= 2,
            {}
        }
        (self.n_samples as u64) * (self.dims.0 as u64) * (self.dims.1 as u64)
    }

    /// The number of rays left to walk.
    pub fn len(&self) -> (r: u64)
        requires
            gen_ok(self.camera, self.dims, self.n_samples),
            self.index <= self.n_samples as int * self.dims.0 as int * self.dims.1 as int,
        ensures
            r == self.n_samples as int * self.dims.0 as int * self.dims.1 as int - self.index,
    {
        self.total() - self.index
    }

    /// Produces the next ray, advancing the cursor: the cursor is split
    /// into a base pixel, jitter is added when anti-aliasing is on (more
    /// than one sample per pixel), the jittered coordinate is normalized
    /// to the logical viewport and the camera casts a ray through it.
    pub fn next(&mut self, rng: &mut Rng) -> (res: Option<Ray>)
        requires
            gen_ok(old(self).camera, old(self).dims, old(self).n_samples),
        ensures
            spec_gen_next(*old(self), *final(self), *old(rng), *final(rng), res),
    {
        let total: u64 = self.total();
        if self.index >= total {
            return None;
        }
        let ns: u64 = self.n_samples as u64;
        let w: u64 = self.dims.0 as u64;
        let rem: u64 = self.index / ns;
        let px: u64 = rem % w;
        let py: u64 = rem / w;
        proof {
            lemma_cursor_split(
                self.index as int,
                self.n_samples as int,
                self.dims.0 as int,
                self.dims.1 as int,
            );
        }
        let (jx, jy): (i64, i64) = if self.n_samples > 1 {
            let a = rng.next_unit();
            let b = rng.next_unit();
            (a, b)
        } else {
            (0, 0)
        };
        let u: i64 = uv_coord(px as u32, jx, self.dims.0);
        let v: i64 = uv_coord(py as u32, jy, self.dims.1);
        let ray = self.camera.cast(u, v);
        self.index = self.index + 1;
        Some(ray)
    }
}

/// Everything one call of the generator's `next` does: the camera,
/// dimensions and sample count never change; an exhausted cursor yields
/// nothing and touches nothing; otherwise the cursor advances by one and
/// the yielded ray is exactly the camera's ray for the cursor's pixel,
/// jittered by the two draws the generator consumes when anti-aliasing
/// is on.
pub open spec fn spec_gen_next(
    g: RayGenerator,
    g2: RayGenerator,
    r0: Rng,
    r1: Rng,
    res: Option<Ray>,
) -> bool {
    let total = g.n_samples as int * g.dims.0 as int * g.dims.1 as int;
    &&& g2.camera == g.camera
    &&& g2.dims == g.dims
    &&& g2.n_samples == g.n_samples
    &&& if g.index as int >= total {
        &&& res is None
        &&& g2 == g
        &&& r1 == r0
    } else {
        let rem = g.index as int / g.n_samples as int;
        let px = rem % g.dims.0 as int;
        let py = rem / g.dims.0 as int;
        &&& g2.index == g.index + 1
        &&& (if g.n_samples > 1 {
            let jx = spec_rng_step(r0.state) % 65536;
            let jy = spec_rng_step(spec_rng_step(r0.state)) % 65536;
            &&& r1.state == spec_rng_step(spec_rng_step(r0.state))
            &&& res == Some(spec_gen_ray(g.camera, g.dims, px, py, jx as int, jy as int))
        } else {
            &&& r1 == r0
            &&& res == Some(spec_gen_ray(g.camera, g.dims, px, py, 0, 0))
        })
        &&& res is Some && ray_ok(res->Some_0)
    }
}

/// Splitting the cursor by the sample count and width lands on a valid
/// pixel.
proof fn lemma_cursor_split(index: int, ns: int, w: int, h: int)
    requires
        0 <= index < ns * w * h,
        1 <= ns,
        2 <= w,
        2 <= h,
    ensures
        0 <= index / ns < w * h,
        0 <= (index / ns) % w < w,
        0 <= (index / ns) / w < h,
{
    let rem = index / ns;
    vstd::arithmetic::div_mod::lemma_fundamental_div_mod(index, ns);
    assert(rem >= 0) by (nonlinear_arith)
        requires
            index >= 0,
            ns >= 1,
            rem == index / ns,
    {}
    assert(rem < w * h) by (nonlinear_arith)
        requires
            index == ns * (index / ns) + index % ns,
            index % ns >= 0,
            index < ns * w * h,
            ns >= 1,
            rem == index / ns,
    {}
    vstd::arithmetic::div_mod::lemma_fundamental_div_mod(rem, w);
    assert(0 <= rem % w < w) by (nonlinear_arith)
        requires
            w >= 2,
            rem >= 0,
    {}
    assert(0 <= rem / w < h) by (nonlinear_arith)
        requires
            rem == w * (rem / w) + rem % w,
            rem % w >= 0,
            0 <= rem < w * h,
            w >= 2,
    {}
}

/// A wrapper around the ray generator that produces the current
/// `(sample, x, y)` coordinate along with each ray, counting samples
/// fastest, then columns, then rows.
#[derive(Clone, Copy, Debug)]
pub struct CoordinateEnumerate {
    /// The generator to iterate over.
    pub iter: RayGenerator,
    /// The width being iterated over.
    pub width: u32,
    /// The number of rays per pixel: how long the sample index counts
    /// before the pixel coordinate moves.
    pub n_samples: usize,
    /// The current sample index.
    pub s: usize,
    /// The current X-coordinate.
    pub x: usize,
    /// The current Y-coordinate.
    pub y: usize,
}

impl RayGenerator {
    /// Wraps this generator so that each ray comes with its
    /// `(sample, x, y)` coordinate.
    pub fn coords(self) -> (r: CoordinateEnumerate)
        ensures
            r.iter == self,
            r.width == self.dims.0,
            r.n_samples == self.n_samples,
            r.s == 0 && r.x == 0 && r.y == 0,
    {
        CoordinateEnumerate {
            iter: self,
            width: self.dims.0,
            n_samples: self.n_samples,
            s: 0,
            x: 0,
            y: 0,
        }
    }
}

impl CoordinateEnumerate {
    /// Produces the wrapped generator's next ray together with the
    /// current coordinate, then steps the coordinate: the sample index
    /// first, rolling over into the column and then the row. It yields
    /// exactly as long as the generator does, and the yielded ray is
    /// exactly the generator's.
    pub fn next(&mut self, rng: &mut Rng) -> (res: Option<((usize, u32, u32), Ray)>)
        requires
            gen_ok(old(self).iter.camera, old(self).iter.dims, old(self).iter.n_samples),
            old(self).s < old(self).n_samples,
            old(self).x <= 0xfffffffe,
            old(self).y <= 0xfffffffe,
            old(self).width >= 1,
        ensures
            spec_gen_next(
                old(self).iter,
                final(self).iter,
                *old(rng),
                *final(rng),
                match res {
                    Some(pr) => Some(pr.1),
                    None => None,
                },
            ),
            res is Some <==> (old(self).iter.index as int) < old(self).iter.n_samples as int * old(
                self,
            ).iter.dims.0 as int * old(self).iter.dims.1 as int,
            final(self).width == old(self).width,
            final(self).n_samples == old(self).n_samples,
            res is None ==> *final(self) == *old(self) && *final(rng) == *old(rng),
            res is Some ==> {
                let pr = res->Some_0;
                &&& pr.0 == (old(self).s, old(self).x as u32, old(self).y as u32)
                &&& (if old(self).s + 1 < old(self).n_samples {
                    final(self).s == old(self).s + 1 && final(self).x == old(self).x
                        && final(self).y == old(self).y
                } else if old(self).x + 1 < old(self).width as int {
                    final(self).s == 0 && final(self).x == old(self).x + 1 && final(self).y == old(
                        self,
                    ).y
                } else {
                    final(self).s == 0 && final(self).x == 0 && final(self).y == old(self).y + 1
                })
            },
    {
        let r = self.iter.next(rng);
        match r {
            None => None,
            Some(ray) => {
                let coord: (usize, u32, u32) = (self.s, self.x as u32, self.y as u32);
                self.s = self.s + 1;
                if self.s >= self.n_samples {
                    self.s = 0;
                    self.x = self.x + 1;
                    if self.x >= self.width as usize {
                        self.x = 0;
                        self.y = self.y + 1;
                    }
                }
                Some((coord, ray))
            },
        }
    }
}

} // verus!
