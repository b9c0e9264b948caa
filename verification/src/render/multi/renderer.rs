//! The MultiThreadRenderer splits the image into horizontal bands and
//! renders each band with an independent band renderer, compositing the
//! bands into the final image at their vertical offsets.
//!
//! Band after band is rendered here with the shared, read-only hit list
//! and the generator threaded through in band order, so the composed
//! image provably equals the single-threaded render of the same frame,
//! pixel for pixel. Running the bands on parallel workers only changes
//! who executes each band, not what it computes.

use vstd::prelude::*;

use crate::common::random::Rng;
use crate::hitlist::hitlist::{hl_wf, HitList};
use crate::math::colour::col01;
use crate::render::frame::{
    dims_ok, feat_ok, lemma_band_chain, render_band, spec_band_state, spec_camera, spec_pixel,
};
use crate::render::image::{img_wf, pix, Image};
use crate::specifications::features::Features;

verus! {

/// Errors that may occur when setting up the multi-threaded renderer.
#[derive(Clone, Copy, Debug, PartialEq, Eq, Structural)]
pub enum Error {
    /// Failed to get the number of available hardware threads.
    AvailableThreads,
}

/// Configuration options for the multi-threaded renderer.
#[derive(Clone, Copy, Debug, PartialEq, Eq, Structural)]
pub struct MultiThreadRendererConfig {
    /// The number of worker threads to use; when absent, the number of
    /// available hardware threads is used.
    pub n_threads: Option<usize>,
}

impl Default for MultiThreadRendererConfig {
    /// The default configuration: query the hardware.
    fn default() -> (r: MultiThreadRendererConfig)
        ensures
            r.n_threads is None,
    {
        MultiThreadRendererConfig { n_threads: None }
    }
}

/// The MultiThreadRenderer renders a frame in horizontal bands.
#[derive(Clone, Copy, Debug)]
pub struct MultiThreadRenderer {
    /// The dimensions of the output images.
    pub dims: (u32, u32),
    /// The renderer features to enable/disable.
    pub features: Features,
    /// The number of bands to render as independent workers.
    pub n_threads: usize,
}

impl MultiThreadRenderer {
    /// Constructor for the MultiThreadRenderer: the worker count comes
    /// from the configuration, or else from the queried hardware
    /// parallelism, which the caller passes in (`None` when the query
    /// failed); with neither, the construction fails.
    pub fn new(
        dims: (u32, u32),
        features: Features,
        config: MultiThreadRendererConfig,
        available: Option<usize>,
    ) -> (r: Result<MultiThreadRenderer, Error>)
        ensures
            match config.n_threads {
                Some(n) => r == Ok::<MultiThreadRenderer, Error>(
                    MultiThreadRenderer { dims, features, n_threads: n },
                ),
                None => match available {
                    Some(a) => r == Ok::<MultiThreadRenderer, Error>(
                        MultiThreadRenderer { dims, features, n_threads: a },
                    ),
                    None => r == Err::<MultiThreadRenderer, Error>(Error::AvailableThreads),
                },
            },
    {
        let n_threads: usize = match config.n_threads {
            Some(n) => n,
            None => match available {
                Some(a) => a,
                None => {
                    return Err(Error::AvailableThreads);
                },
            },
        };
        Ok(MultiThreadRenderer { dims, features, n_threads })
    }

    /// Renders a single frame band by band: the image's rows are split
    /// into nearly-equal horizontal bands (the last band absorbs the
    /// remainder), each band is rendered on its own, and the bands are
    /// composited at their vertical offsets. A worker count beyond the
    /// row count is clamped to it, every band being at least one row.
    /// Every pixel of the result equals the single-threaded render of
    /// the same frame.
    pub fn render_frame(&self, list: &HitList, rng: &mut Rng) -> (img: Image)
        requires
            hl_wf(*list),
            dims_ok(self.dims.0 as int, self.dims.1 as int),
            feat_ok(self.features),
            1 <= self.n_threads,
        ensures
            img_wf(img),
            img.dims == self.dims,
            forall|i: int| 0 <= i < img.pixels@.len() ==> col01(#[trigger] img.pixels@[i]),
            ({
                let cam = spec_camera(self.dims.0 as int, self.dims.1 as int);
                let ns = self.features.n_samples as int;
                let depth = self.features.max_depth as nat;
                let gamma = self.features.gamma_correction;
                let s0 = old(rng).state;
                &&& forall|x: int, y: int|
                    0 <= x < self.dims.0 as int && 0 <= y < self.dims.1 as int ==> pix(img, x, y)
                        == #[trigger] spec_pixel(
                        *list,
                        cam,
                        self.dims,
                        ns,
                        depth,
                        gamma,
                        x,
                        y,
                        spec_band_state(
                            *list,
                            cam,
                            self.dims,
                            ns,
                            depth,
                            gamma,
                            0,
                            (y * self.dims.0 as int + x) as nat,
                            s0,
                        ),
                    ).0
                &&& final(rng).state == spec_band_state(
                    *list,
                    cam,
                    self.dims,
                    ns,
                    depth,
                    gamma,
                    0,
                    (self.dims.1 as int * self.dims.0 as int) as nat,
                    s0,
                )
            }),
    {
        let ghost s0 = rng.state;
        let ghost cam = spec_camera(self.dims.0 as int, self.dims.1 as int);
        let ghost ns = self.features.n_samples as int;
        let ghost depth_s = self.features.max_depth as nat;
        let ghost gamma = self.features.gamma_correction;
        let w: u32 = self.dims.0;
        let h: u32 = self.dims.1;
        let n: usize = if self.n_threads > h as usize {
            h as usize
        } else {
            self.n_threads
        };
        let rows_per: u32 = h / (n as u32);
        proof {
            vstd::arithmetic::div_mod::lemma_div_multiples_vanish(1, n as int);
            vstd::arithmetic::div_mod::lemma_div_is_ordered(n as int, h as int, n as int);
            assert(rows_per >= 1);
            vstd::arithmetic::div_mod::lemma_fundamental_div_mod(h as int, n as int);
        }
        let mut result = Image::new((w, h));
        let mut y0: u32 = 0;
        let mut i: usize = 0;
        while i < n
            invariant
                hl_wf(*list),
                dims_ok(w as int, h as int),
                feat_ok(self.features),
                1 <= n <= h,
                w == self.dims.0,
                h == self.dims.1,
                cam == spec_camera(w as int, h as int),
                ns == self.features.n_samples as int,
                depth_s == self.features.max_depth as nat,
                gamma == self.features.gamma_correction,
                rows_per == h as int / n as int,
                rows_per >= 1,
                0 <= i <= n,
                i < n ==> y0 == i as int * rows_per as int,
                i == n ==> y0 == h,
                y0 <= h,
                img_wf(result),
                result.dims == (w, h),
                forall|j: int| 0 <= j < result.pixels@.len() ==> col01(#[trigger] result.pixels@[j]),
                rng.state == spec_band_state(
                    *list,
                    cam,
                    (w, h),
                    ns,
                    depth_s,
                    gamma,
                    0,
                    (y0 as int * w as int) as nat,
                    s0,
                ),
                forall|x: int, y: int|
                    0 <= x < w as int && 0 <= y < y0 as int ==> pix(result, x, y)
                        == #[trigger] spec_pixel(
                        *list,
                        cam,
                        (w, h),
                        ns,
                        depth_s,
                        gamma,
                        x,
                        y,
                        spec_band_state(
                            *list,
                            cam,
                            (w, h),
                            ns,
                            depth_s,
                            gamma,
                            0,
                            (y * w as int + x) as nat,
                            s0,
                        ),
                    ).0,
            decreases n - i,
        {
            let (band_y0, band_h): (u32, u32) = band_extent(i, n, h);
            proof {
                assert(band_y0 == y0);
            }
            let ghost band_start = rng.state;
            let band = render_band(list, &self.features, w, band_h, y0, h, rng);
            proof {
                assert forall|x: int, y: int|
                    0 <= x < w as int && 0 <= y < band_h as int implies pix(band, x, y)
                    == spec_pixel(
                    *list,
                    cam,
                    (w, h),
                    ns,
                    depth_s,
                    gamma,
                    x,
                    y0 as int + y,
                    spec_band_state(
                        *list,
                        cam,
                        (w, h),
                        ns,
                        depth_s,
                        gamma,
                        0,
                        ((y0 as int + y) * w as int + x) as nat,
                        s0,
                    ),
                ).0 by {
                    lemma_band_chain(
                        *list,
                        cam,
                        (w, h),
                        ns,
                        depth_s,
                        gamma,
                        y0 as int,
                        (y * w as int + x) as nat,
                        s0,
                    );
                    assert(y0 as int * w as int + (y * w as int + x) == (y0 as int + y) * w as int
                        + x) by (nonlinear_arith) {}
                }
                lemma_band_chain(
                    *list,
                    cam,
                    (w, h),
                    ns,
                    depth_s,
                    gamma,
                    y0 as int,
                    (band_h as int * w as int) as nat,
                    s0,
                );
                assert(y0 as int * w as int + band_h as int * w as int == (y0 as int
                    + band_h as int) * w as int) by (nonlinear_arith) {}
            }
            let ghost pre_result = result;
            result.move_into(band, (0, y0));
            proof {
                assert forall|j: int| 0 <= j < result.pixels@.len() implies col01(
                    #[trigger] result.pixels@[j],
                ) by {
                    crate::render::image::lemma_pix_of_index(result, j);
                    let xx = j % (w as int);
                    let yy = j / (w as int);
                    if y0 as int <= yy < y0 as int + band_h as int {
                        crate::render::image::lemma_pix_index(
                            w as int,
                            band_h as int,
                            xx,
                            yy - y0 as int,
                        );
                        assert(pix(result, xx, yy) == pix(band, xx, yy - y0 as int));
                        assert(pix(band, xx, yy - y0 as int) == band.pixels@[(yy - y0 as int) * (
                        w as int) + xx]);
                    } else {
                        assert(pix(result, xx, yy) == pix(pre_result, xx, yy));
                        crate::render::image::lemma_pix_index(w as int, h as int, xx, yy);
                        assert(pix(pre_result, xx, yy) == pre_result.pixels@[yy * (w as int) + xx]);
                    }
                }
            }
            y0 = y0 + band_h;
            i = i + 1;
            proof {
                if i < n {
                    assert(y0 as int == i as int * rows_per as int) by (nonlinear_arith)
                        requires
                            y0 as int == (i as int - 1) * rows_per as int + rows_per as int,
                    {}
                }
            }
        }
        result
    }
}

/// The vertical extent of band `i` of `n`: its starting row and height.
/// All bands but the last are `h / n` rows tall; the last absorbs the
/// remainder. Every band is at least one row, and the bands exactly
/// tile the `h` rows in order.
pub fn band_extent(i: usize, n: usize, h: u32) -> (r: (u32, u32))
    requires
        1 <= n <= h,
        h <= 4096,
        i < n,
    ensures
        r.0 as int == i as int * (h as int / n as int),
        r.1 as int == (if i + 1 == n {
            h as int - i as int * (h as int / n as int)
        } else {
            h as int / n as int
        }),
        1 <= r.1,
        r.0 + r.1 <= h,
{
    let rows_per: u32 = h / (n as u32);
    proof {
        vstd::arithmetic::div_mod::lemma_div_multiples_vanish(1, n as int);
        vstd::arithmetic::div_mod::lemma_div_is_ordered(n as int, h as int, n as int);
        assert(rows_per >= 1);
        if i + 1 == n {
            lemma_last_band(
                h as int,
                n as int,
                i as int,
                rows_per as int,
                i as int * rows_per as int,
            );
        } else {
            lemma_mid_band(
                h as int,
                n as int,
                i as int,
                rows_per as int,
                i as int * rows_per as int,
            );
        }
    }
    let y0: u32 = (i as u32) * rows_per;
    if i + 1 == n {
        (y0, h - y0)
    } else {
        (y0, rows_per)
    }
}

/// A middle band of `rows_per` rows still fits under the image height.
proof fn lemma_mid_band(h: int, n: int, i: int, rows_per: int, y0: int)
    requires
        1 <= n <= h,
        rows_per == h / n,
        rows_per >= 1,
        0 <= i < n,
        i + 1 < n || i + 1 == n,
        i + 1 != n,
        y0 == i * rows_per,
    ensures
        y0 + rows_per <= h,
        y0 <= h,
{
    vstd::arithmetic::div_mod::lemma_fundamental_div_mod(h, n);
    assert((i + 1) * rows_per <= n * rows_per) by (nonlinear_arith)
        requires
            i + 1 <= n,
            rows_per >= 1,
    {}
    assert(n * rows_per <= h) by (nonlinear_arith)
        requires
            h == n * (h / n) + h % n,
            h % n >= 0,
            rows_per == h / n,
    {}
    assert(y0 + rows_per == (i + 1) * rows_per) by (nonlinear_arith)
        requires
            y0 == i * rows_per,
    {}
    assert(y0 >= 0) by (nonlinear_arith)
        requires
            i >= 0,
            rows_per >= 1,
            y0 == i * rows_per,
    {}
}

/// The last band, which absorbs the remainder rows, is at least one row
/// tall.
proof fn lemma_last_band(h: int, n: int, i: int, rows_per: int, y0: int)
    requires
        1 <= n <= h,
        rows_per == h / n,
        rows_per >= 1,
        0 <= i < n,
        i + 1 == n,
        y0 == i * rows_per,
    ensures
        y0 < h,
        0 <= y0,
{
    vstd::arithmetic::div_mod::lemma_fundamental_div_mod(h, n);
    assert((n - 1) * rows_per < h) by (nonlinear_arith)
        requires
            h == n * (h / n) + h % n,
            h % n >= 0,
            rows_per == h / n,
            rows_per >= 1,
            n >= 1,
    {}
    assert(y0 >= 0) by (nonlinear_arith)
        requires
            i >= 0,
            rows_per >= 1,
            y0 == i * rows_per,
    {}
}

} // verus!
