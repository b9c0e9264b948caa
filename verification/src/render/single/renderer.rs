//! The SingleThreadRenderer renders frames straightforwardly on the
//! calling thread, no fuss.

use vstd::prelude::*;

use crate::common::random::Rng;
use crate::hitlist::hitlist::{hl_wf, HitList};
use crate::math::colour::col01;
use crate::render::frame::{
    dims_ok, feat_ok, render_band, spec_band_state, spec_camera, spec_pixel,
};
use crate::render::image::{img_wf, pix, Image};
use crate::specifications::features::Features;

verus! {

/// The SingleThreadRenderer renders a whole frame pixel by pixel on the
/// calling thread.
#[derive(Clone, Copy, Debug)]
pub struct SingleThreadRenderer {
    /// The dimensions of the output images.
    pub dims: (u32, u32),
    /// The renderer features to enable/disable.
    pub features: Features,
    /// Whether to show progress while rendering.
    pub show_prgs: bool,
}

impl SingleThreadRenderer {
    /// Constructor for the SingleThreadRenderer.
    pub fn new(dims: (u32, u32), features: Features, show_prgs: bool) -> (r: SingleThreadRenderer)
        ensures
            r.dims == dims,
            r.features == features,
            r.show_prgs == show_prgs,
    {
        SingleThreadRenderer { dims, features, show_prgs }
    }

    /// Renders a single frame of the configured dimensions: every pixel
    /// holds the averaged, finalized colour of its samples, and the
    /// generator state advances pixel by pixel in row-major order.
    pub fn render_frame(&self, list: &HitList, rng: &mut Rng) -> (img: Image)
        requires
            hl_wf(*list),
            dims_ok(self.dims.0 as int, self.dims.1 as int),
            feat_ok(self.features),
        ensures
            img_wf(img),
            img.dims == self.dims,
            forall|i: int| 0 <= i < img.pixels@.len() ==> col01(#[trigger] img.pixels@[i]),
            ({
                let cam = spec_camera(self.dims.0 as int, self.dims.1 as int);
                let ns = self.features.n_samples as int;
                let depth = self.features.max_depth as nat;
                let gamma = self.features.gamma_correction;
                let s0 = old(rng).state;
                &&& forall|x: int, y: int|
                    0 <= x < self.dims.0 as int && 0 <= y < self.dims.1 as int ==> pix(img, x, y)
                        == #[trigger] spec_pixel(
                        *list,
                        cam,
                        self.dims,
                        ns,
                        depth,
                        gamma,
                        x,
                        y,
                        spec_band_state(
                            *list,
                            cam,
                            self.dims,
                            ns,
                            depth,
                            gamma,
                            0,
                            (y * self.dims.0 as int + x) as nat,
                            s0,
                        ),
                    ).0
                &&& final(rng).state == spec_band_state(
                    *list,
                    cam,
                    self.dims,
                    ns,
                    depth,
                    gamma,
                    0,
                    (self.dims.1 as int * self.dims.0 as int) as nat,
                    s0,
                )
            }),
    {
        let img = render_band(list, &self.features, self.dims.0, self.dims.1, 0, self.dims.1, rng);
        proof {
            assert(self.dims == (self.dims.0, self.dims.1));
            let cam = spec_camera(self.dims.0 as int, self.dims.1 as int);
            let ns = self.features.n_samples as int;
            let depth = self.features.max_depth as nat;
            let gamma = self.features.gamma_correction;
            let s0 = old(rng).state;
            let td = (self.dims.0, self.dims.1);
            assert forall|x: int, y: int|
                0 <= x < self.dims.0 as int && 0 <= y < self.dims.1 as int implies pix(img, x, y)
                == #[trigger] spec_pixel(
                *list,
                cam,
                self.dims,
                ns,
                depth,
                gamma,
                x,
                y,
                spec_band_state(
                    *list,
                    cam,
                    self.dims,
                    ns,
                    depth,
                    gamma,
                    0,
                    (y * self.dims.0 as int + x) as nat,
                    s0,
                ),
            ).0 by {
                assert(pix(img, x, y) == spec_pixel(
                    *list,
                    cam,
                    td,
                    ns,
                    depth,
                    gamma,
                    x,
                    0 + y,
                    spec_band_state(
                        *list,
                        cam,
                        td,
                        ns,
                        depth,
                        gamma,
                        0,
                        (y * self.dims.0 as int + x) as nat,
                        s0,
                    ),
                ).0);
            }
        }
        img
    }
}

} // verus!
