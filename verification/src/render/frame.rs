//! The frame renderer: the recursive colour of a single ray, and the
//! loop that drives it over every pixel and sample of an image band.

use vstd::prelude::*;

use crate::common::random::{spec_rng_step, Rng};
use crate::hitlist::hitlist::{
    combined_candidate, hl_wf, is_closest_hit_combined, item_ok, lemma_closest_is, spec_closest,
    HitIndex, HitList,
};
use crate::math::camera::{cam_ok, Camera};
use crate::math::colour::{col01, col_in, spec_clamp_ch, spec_gamma_ch, Colour};
use crate::math::fixed::{
    fdiv, fmul, lemma_fmul_range, lemma_mul_bound, lemma_tdiv_lt, lemma_tdiv_magnitude, div_fp,
    mul_fp, tdiv, FP_HALF, FP_ONE, FP_T_MAX,
};
use crate::math::ray::Ray;
use crate::math::vec3::Vec3;
use crate::render::image::{img_wf, pix, Image};
use crate::render::generator::spec_gen_ray;
use crate::specifications::features::Features;
use crate::specifications::materials::diffuse::spec_diffuse_dir;
use crate::specifications::materials::simple::spec_normal_map_ch;
use crate::specifications::objects::sphere::ray_ok;

verus! {

/// The channel-wise fixed-point product of two colours.
pub open spec fn spec_col_mul(a: Colour, b: Colour) -> Colour {
    Colour {
        r: fmul(a.r as int, b.r as int) as i64,
        g: fmul(a.g as int, b.g as int) as i64,
        b: fmul(a.b as int, b.b as int) as i64,
        a: fmul(a.a as int, b.a as int) as i64,
    }
}

/// The sky-gradient colour of a ray that hits nothing: a blend from
/// white to sky-blue by the upward component of the ray's direction,
/// fully opaque.
pub open spec fn spec_sky(ray: Ray) -> Colour {
    let u = crate::math::vec3::spec_unit_vec(ray.direct);
    let t = fmul(FP_HALF as int, u.y + FP_ONE as int);
    let omt = FP_ONE as int - t;
    Colour {
        r: (fmul(65536, omt) + fmul(32768, t)) as i64,
        g: (fmul(65536, omt) + fmul(45875, t)) as i64,
        b: (fmul(65536, omt) + fmul(65536, t)) as i64,
        a: FP_ONE,
    }
}

/// The colour of a ray and the generator state after tracing it: black
/// when the bounce budget has run out; the sky gradient when nothing is
/// hit; a non-bouncing material's own colour; and for a diffuse hit, the
/// material's colour attenuating the colour of the bounced ray.
pub open spec fn spec_ray_colour(hl: HitList, ray: Ray, depth: nat, s: u64) -> (Colour, u64)
    decreases depth,
{
    if depth == 0 {
        (Colour { r: 0i64, g: 0i64, b: 0i64, a: FP_ONE }, s)
    } else {
        match spec_closest(hl, ray, 0, FP_T_MAX as int) {
            None => (spec_sky(ray), s),
            Some(pr) => {
                let rec = pr.1;
                match pr.0 {
                    HitIndex::SphereStaticColour(k) => (
                        hl.sphere_staticcolour.items@[k as int]->Object_0.material.colour,
                        s,
                    ),
                    HitIndex::SphereNormalMap(k) => (
                        Colour {
                            r: spec_normal_map_ch(rec.normal.x as int) as i64,
                            g: spec_normal_map_ch(rec.normal.y as int) as i64,
                            b: spec_normal_map_ch(rec.normal.z as int) as i64,
                            a: FP_ONE,
                        },
                        s,
                    ),
                    HitIndex::SphereDiffuse(k) => {
                        let scattered = Ray {
                            origin: rec.hit,
                            direct: spec_diffuse_dir(rec.normal, s),
                        };
                        let s1 = crate::common::random::spec_rng_step3(s);
                        let sub = spec_ray_colour(hl, scattered, (depth - 1) as nat, s1);
                        (
                            spec_col_mul(
                                hl.sphere_diffuse.items@[k as int]->Object_0.material.colour,
                                sub.0,
                            ),
                            sub.1,
                        )
                    },
                }
            },
        }
    }
}

/// Computes the sky-gradient colour of a ray.
fn sky_colour(ray: Ray) -> (c: Colour)
    requires
        ray_ok(ray),
    ensures
        c == spec_sky(ray),
        col_in(c, 0x40000),
{
    let udir: Vec3 = ray.direct.unit();
    proof {
        lemma_mul_bound(FP_HALF as int, udir.y as int + FP_ONE as int, 32768, 0x30000);
        lemma_fmul_range(FP_HALF as int, udir.y as int + FP_ONE as int, 32768int * 0x30000);
    }
    let t: i64 = mul_fp(FP_HALF, udir.y + FP_ONE);
    let omt: i64 = FP_ONE - t;
    proof {
        lemma_mul_bound(65536, omt as int, 65536, 0x28000);
        lemma_fmul_range(65536, omt as int, 65536int * 0x28000);
        lemma_mul_bound(32768, t as int, 32768, 0x18000);
        lemma_fmul_range(32768, t as int, 32768int * 0x18000);
        lemma_mul_bound(45875, t as int, 45875, 0x18000);
        lemma_fmul_range(45875, t as int, 45875int * 0x18000);
        lemma_mul_bound(65536, t as int, 65536, 0x18000);
        lemma_fmul_range(65536, t as int, 65536int * 0x18000);
    }
    let white = Colour::new(FP_ONE, FP_ONE, FP_ONE, 0);
    let blue = Colour::new(FP_HALF, 45875, FP_ONE, 0);
    let c = white.mul_s(omt).add(blue.mul_s(t)).opaque();
    c
}

/// Computes the colour of a single ray: resolves the closest hit,
/// scatters off its material, and recurses while the bounce budget
/// lasts; a ray that hits nothing yields the sky gradient, and a spent
/// budget yields opaque black.
#[verifier::rlimit(100)]
pub fn ray_colour(ray: Ray, list: &HitList, depth: usize, rng: &mut Rng) -> (c: Colour)
    requires
        hl_wf(*list),
        ray_ok(ray),
    ensures
        c == spec_ray_colour(*list, ray, depth as nat, old(rng).state).0,
        final(rng).state == spec_ray_colour(*list, ray, depth as nat, old(rng).state).1,
        depth == 0 ==> c == (Colour { r: 0i64, g: 0i64, b: 0i64, a: FP_ONE }) && *final(rng)
            == *old(rng),
        col_in(c, 0x40000),
    decreases depth,
{
    if depth == 0 {
        return Colour::new(0, 0, 0, FP_ONE);
    }
    let res = list.hit(ray, 0, FP_T_MAX);
    proof {
        lemma_closest_is(*list, ray, 0, FP_T_MAX as int, res);
    }
    match res {
        None => sky_colour(ray),
        Some((index, record)) => {
            proof {
                assert(combined_candidate(*list, ray, 0, FP_T_MAX as int, index));
                match index {
                    HitIndex::SphereStaticColour(k) => {
                        assert(item_ok(list.sphere_staticcolour.items@[k as int]));
                    },
                    HitIndex::SphereNormalMap(k) => {
                        assert(item_ok(list.sphere_normalmap.items@[k as int]));
                    },
                    HitIndex::SphereDiffuse(k) => {
                        assert(item_ok(list.sphere_diffuse.items@[k as int]));
                    },
                }
            }
            let (scat, attenuation) = list.scatter(ray, index, record, rng);
            match scat {
                Some(scattered) => {
                    proof {
                        assert(ray_ok(scattered));
                    }
                    let sub = ray_colour(scattered, list, depth - 1, rng);
                    proof {
                        lemma_mul_bound(attenuation.r as int, sub.r as int, 65536, 0x40000);
                        lemma_mul_bound(attenuation.g as int, sub.g as int, 65536, 0x40000);
                        lemma_mul_bound(attenuation.b as int, sub.b as int, 65536, 0x40000);
                        lemma_mul_bound(attenuation.a as int, sub.a as int, 65536, 0x40000);
                        lemma_fmul_range(attenuation.r as int, sub.r as int, 65536int * 0x40000);
                        lemma_fmul_range(attenuation.g as int, sub.g as int, 65536int * 0x40000);
                        lemma_fmul_range(attenuation.b as int, sub.b as int, 65536int * 0x40000);
                        lemma_fmul_range(attenuation.a as int, sub.a as int, 65536int * 0x40000);
                    }
                    let c = attenuation.mul(sub);
                    c
                },
                None => {
                    proof {
                        match index {
                            HitIndex::SphereStaticColour(k) => {},
                            HitIndex::SphereNormalMap(k) => {
                                lemma_nm_bound(record.normal.x as int);
                                lemma_nm_bound(record.normal.y as int);
                                lemma_nm_bound(record.normal.z as int);
                            },
                            HitIndex::SphereDiffuse(k) => {},
                        }
                    }
                    attenuation
                },
            }
        },
    }
}

/// Whether the image dimensions are within the renderer's range: both
/// sides between two and 4096 pixels, with an aspect ratio of at most
/// 64.
pub open spec fn dims_ok(w: int, h: int) -> bool {
    2 <= w <= 4096 && 2 <= h <= 4096 && w <= 64 * h
}

/// Whether the features are within the renderer's range.
pub open spec fn feat_ok(f: Features) -> bool {
    1 <= f.n_samples <= 0x100000
}

/// The camera a render of a `w` by `h` image uses: a viewport of height
/// two, width matching the image's aspect ratio, one unit in front of
/// the focal point at the origin.
pub open spec fn spec_camera(w: int, h: int) -> Camera {
    let vw = 2 * fdiv(w * 65536, h * 65536);
    Camera {
        origin: Vec3 { x: 0i64, y: 0i64, z: 0i64 },
        horizontal: Vec3 { x: vw as i64, y: 0i64, z: 0i64 },
        vertical: Vec3 { x: 0i64, y: 131072i64, z: 0i64 },
        lower_left_corner: Vec3 {
            x: (-tdiv(vw, 2)) as i64,
            y: -65536i64,
            z: -65536i64,
        },
    }
}

/// Builds the camera for a `w` by `h` image.
pub fn build_camera(w: u32, h: u32) -> (cam: Camera)
    requires
        dims_ok(w as int, h as int),
    ensures
        cam == spec_camera(w as int, h as int),
        cam_ok(cam),
{
    let w_fp: i64 = (w as i64) * 65536;
    let h_fp: i64 = (h as i64) * 65536;
    let aspect: i64 = div_fp(w_fp, h_fp);
    proof {
        lemma_aspect_bound(w as int, h as int);
    }
    let vw: i64 = aspect * 2;
    let cam = Camera::new((vw, 131072), 65536);
    proof {
        assert(vw as int == 2 * fdiv(w as int * 65536, h as int * 65536));
        assert(tdiv(vw as int, 2) == aspect as int) by {
            crate::math::fixed::lemma_tdiv_monotone(0, 0, 1);
            assert(vw as int == 2 * (aspect as int));
            if aspect >= 0 {
                vstd::arithmetic::div_mod::lemma_div_multiples_vanish(aspect as int, 2);
            } else {
                vstd::arithmetic::div_mod::lemma_div_multiples_vanish(-(aspect as int), 2);
                assert(-(vw as int) == 2 * (-(aspect as int)));
            }
        }
    }
    cam
}

/// The aspect ratio of supported dimensions stays within 64 units.
proof fn lemma_aspect_bound(w: int, h: int)
    requires
        dims_ok(w, h),
    ensures
        0 <= fdiv(w * 65536, h * 65536) <= 64 * 65536,
{
    let num = (w * 65536) * 65536;
    let den = h * 65536;
    assert(num >= 0 && den >= 1) by (nonlinear_arith)
        requires
            w >= 2,
            h >= 2,
            num == (w * 65536) * 65536,
            den == h * 65536,
    {}
    assert(num < den * (64 * 65536 + 1)) by (nonlinear_arith)
        requires
            w <= 64 * h,
            h >= 2,
            num == (w * 65536) * 65536,
            den == h * 65536,
    {}
    lemma_tdiv_lt(num, den, 64int * 65536 + 1);
    lemma_tdiv_magnitude(num, den);
    assert(fdiv(w * 65536, h * 65536) == tdiv(num, den));
}

/// One sample of a pixel: the jitter drawn when anti-aliasing is on, the
/// ray through the jittered position, and the traced colour, together
/// with the generator state afterwards.
pub open spec fn spec_sample(
    hl: HitList,
    cam: Camera,
    dims: (u32, u32),
    ns: int,
    depth: nat,
    px: int,
    py: int,
    s: u64,
) -> (Colour, u64) {
    let jx: int = if ns > 1 {
        (spec_rng_step(s) % 65536) as int
    } else {
        0
    };
    let jy: int = if ns > 1 {
        (spec_rng_step(spec_rng_step(s)) % 65536) as int
    } else {
        0
    };
    let s1: u64 = if ns > 1 {
        spec_rng_step(spec_rng_step(s))
    } else {
        s
    };
    let ray = spec_gen_ray(cam, dims, px, py, jx, jy);
    spec_ray_colour(hl, ray, depth, s1)
}

/// The channel sums and final state after the remaining `k` samples of a
/// pixel, starting from accumulator `acc` and state `s`.
pub open spec fn spec_accum_from(
    hl: HitList,
    cam: Camera,
    dims: (u32, u32),
    ns: int,
    depth: nat,
    px: int,
    py: int,
    k: int,
    acc: (int, int, int, int),
    s: u64,
) -> ((int, int, int, int), u64)
    decreases k,
{
    if k <= 0 {
        (acc, s)
    } else {
        let (c, s1) = spec_sample(hl, cam, dims, ns, depth, px, py, s);
        spec_accum_from(
            hl,
            cam,
            dims,
            ns,
            depth,
            px,
            py,
            k - 1,
            (acc.0 + c.r, acc.1 + c.g, acc.2 + c.b, acc.3 + c.a),
            s1,
        )
    }
}

/// The finished value of a pixel: the accumulated channels averaged over
/// the sample count, gamma-corrected when asked, forced opaque, and
/// clamped to the unit range.
pub open spec fn spec_finalize(acc: (int, int, int, int), ns: int, gamma: bool) -> Colour {
    let avg = (tdiv(acc.0, ns), tdiv(acc.1, ns), tdiv(acc.2, ns), tdiv(acc.3, ns));
    let g = if gamma {
        (spec_gamma_ch(avg.0), spec_gamma_ch(avg.1), spec_gamma_ch(avg.2), avg.3)
    } else {
        avg
    };
    Colour {
        r: spec_clamp_ch(g.0) as i64,
        g: spec_clamp_ch(g.1) as i64,
        b: spec_clamp_ch(g.2) as i64,
        a: FP_ONE,
    }
}

/// The value of one pixel and the generator state afterwards.
pub open spec fn spec_pixel(
    hl: HitList,
    cam: Camera,
    dims: (u32, u32),
    ns: int,
    depth: nat,
    gamma: bool,
    px: int,
    py: int,
    s: u64,
) -> (Colour, u64) {
    let (acc, s1) = spec_accum_from(hl, cam, dims, ns, depth, px, py, ns, (0, 0, 0, 0), s);
    (spec_finalize(acc, ns, gamma), s1)
}

/// The generator state after the first `p` pixels of a band whose rows
/// start at `yoff`, walked column-fastest.
pub open spec fn spec_band_state(
    hl: HitList,
    cam: Camera,
    dims: (u32, u32),
    ns: int,
    depth: nat,
    gamma: bool,
    yoff: int,
    p: nat,
    s0: u64,
) -> u64
    decreases p,
{
    if p == 0 {
        s0
    } else {
        let prev = spec_band_state(hl, cam, dims, ns, depth, gamma, yoff, (p - 1) as nat, s0);
        spec_pixel(
            hl,
            cam,
            dims,
            ns,
            depth,
            gamma,
            ((p - 1) as int) % dims.0 as int,
            yoff + ((p - 1) as int) / dims.0 as int,
            prev,
        ).1
    }
}

/// Renders the rows `[y_offset, y_offset + band_h)` of a `width` by
/// `full_h` frame into a band image of its own: every pixel is sampled
/// `n_samples` times through the frame's camera, the samples averaged,
/// optionally gamma-corrected, forced opaque and clamped.
pub fn render_band(
    list: &HitList,
    features: &Features,
    width: u32,
    band_h: u32,
    y_offset: u32,
    full_h: u32,
    rng: &mut Rng,
) -> (img: Image)
    requires
        hl_wf(*list),
        dims_ok(width as int, full_h as int),
        feat_ok(*features),
        1 <= band_h,
        y_offset + band_h <= full_h,
    ensures
        img_wf(img),
        img.dims == (width, band_h),
        forall|i: int| 0 <= i < img.pixels@.len() ==> col01(#[trigger] img.pixels@[i]),
        ({
            let cam = spec_camera(width as int, full_h as int);
            let ns = features.n_samples as int;
            let depth = features.max_depth as nat;
            let gamma = features.gamma_correction;
            let s0 = old(rng).state;
            &&& forall|x: int, y: int|
                0 <= x < width as int && 0 <= y < band_h as int ==> pix(img, x, y)
                    == #[trigger] spec_pixel(
                    *list,
                    cam,
                    (width, full_h),
                    ns,
                    depth,
                    gamma,
                    x,
                    y_offset as int + y,
                    spec_band_state(
                        *list,
                        cam,
                        (width, full_h),
                        ns,
                        depth,
                        gamma,
                        y_offset as int,
                        (y * width as int + x) as nat,
                        s0,
                    ),
                ).0
            &&& final(rng).state == spec_band_state(
                *list,
                cam,
                (width, full_h),
                ns,
                depth,
                gamma,
                y_offset as int,
                (band_h as int * width as int) as nat,
                s0,
            )
        }),
{
    let ghost s0 = rng.state;
    let cam = build_camera(width, full_h);
    let ghost dims = (width, full_h);
    let ghost ns = features.n_samples as int;
    let ghost depth_s = features.max_depth as nat;
    let ghost gamma = features.gamma_correction;
    let mut img = Image::new((width, band_h));
    let mut y: u32 = 0;
    while y < band_h
        invariant
            hl_wf(*list),
            dims_ok(width as int, full_h as int),
            feat_ok(*features),
            1 <= band_h,
            y_offset + band_h <= full_h,
            cam == spec_camera(width as int, full_h as int),
            cam_ok(cam),
            dims == (width, full_h),
            ns == features.n_samples as int,
            depth_s == features.max_depth as nat,
            gamma == features.gamma_correction,
            0 <= y <= band_h,
            img_wf(img),
            img.dims == (width, band_h),
            forall|i: int| 0 <= i < img.pixels@.len() ==> col01(#[trigger] img.pixels@[i]),
            rng.state == spec_band_state(
                *list,
                cam,
                dims,
                ns,
                depth_s,
                gamma,
                y_offset as int,
                (y as int * width as int) as nat,
                s0,
            ),
            forall|xx: int, yy: int|
                0 <= xx < width as int && 0 <= yy < y as int ==> pix(img, xx, yy)
                    == #[trigger] spec_pixel(
                    *list,
                    cam,
                    dims,
                    ns,
                    depth_s,
                    gamma,
                    xx,
                    y_offset as int + yy,
                    spec_band_state(
                        *list,
                        cam,
                        dims,
                        ns,
                        depth_s,
                        gamma,
                        y_offset as int,
                        (yy * width as int + xx) as nat,
                        s0,
                    ),
                ).0,
        decreases band_h - y,
    {
        let mut x: u32 = 0;
        while x < width
            invariant
                hl_wf(*list),
                dims_ok(width as int, full_h as int),
                feat_ok(*features),
                1 <= band_h,
                y_offset + band_h <= full_h,
                cam == spec_camera(width as int, full_h as int),
                cam_ok(cam),
                dims == (width, full_h),
                ns == features.n_samples as int,
                depth_s == features.max_depth as nat,
                gamma == features.gamma_correction,
                0 <= y < band_h,
                0 <= x <= width,
                img_wf(img),
                img.dims == (width, band_h),
                forall|i: int| 0 <= i < img.pixels@.len() ==> col01(#[trigger] img.pixels@[i]),
                rng.state == spec_band_state(
                    *list,
                    cam,
                    dims,
                    ns,
                    depth_s,
                    gamma,
                    y_offset as int,
                    (y as int * width as int + x as int) as nat,
                    s0,
                ),
                forall|xx: int, yy: int|
                    0 <= xx < width as int && 0 <= yy < y as int ==> pix(img, xx, yy)
                        == #[trigger] spec_pixel(
                        *list,
                        cam,
                        dims,
                        ns,
                        depth_s,
                        gamma,
                        xx,
                        y_offset as int + yy,
                        spec_band_state(
                            *list,
                            cam,
                            dims,
                            ns,
                            depth_s,
                            gamma,
                            y_offset as int,
                            (yy * width as int + xx) as nat,
                            s0,
                        ),
                    ).0,
                forall|xx: int|
                    0 <= xx < x as int ==> pix(img, xx, y as int) == #[trigger] spec_pixel(
                        *list,
                        cam,
                        dims,
                        ns,
                        depth_s,
                        gamma,
                        xx,
                        y_offset as int + y as int,
                        spec_band_state(
                            *list,
                            cam,
                            dims,
                            ns,
                            depth_s,
                            gamma,
                            y_offset as int,
                            (y as int * width as int + xx) as nat,
                            s0,
                        ),
                    ).0,
            decreases width - x,
        {
            let ghost s_pix = rng.state;
            let py: u32 = y_offset + y;
            let mut acc = Colour::zeroes();
            let mut smp: usize = 0;
            while smp < features.n_samples
                invariant
                    hl_wf(*list),
                    dims_ok(width as int, full_h as int),
                    feat_ok(*features),
                    cam == spec_camera(width as int, full_h as int),
                    cam_ok(cam),
                    dims == (width, full_h),
                    ns == features.n_samples as int,
                    depth_s == features.max_depth as nat,
                    0 <= smp <= features.n_samples,
                    0 <= x < width,
                    py == y_offset + y,
                    py < full_h,
                    col_in(acc, smp as int * 0x40000),
                    spec_accum_from(
                        *list,
                        cam,
                        dims,
                        ns,
                        depth_s,
                        x as int,
                        py as int,
                        ns,
                        (0, 0, 0, 0),
                        s_pix,
                    ) == spec_accum_from(
                        *list,
                        cam,
                        dims,
                        ns,
                        depth_s,
                        x as int,
                        py as int,
                        ns - smp as int,
                        (acc.r as int, acc.g as int, acc.b as int, acc.a as int),
                        rng.state,
                    ),
                decreases features.n_samples - smp,
            {
                let ghost s_smp = rng.state;
                let (jx, jy): (i64, i64) = if features.n_samples > 1 {
                    let a = rng.next_unit();
                    let b = rng.next_unit();
                    (a, b)
                } else {
                    (0, 0)
                };
                let u: i64 = crate::render::generator::uv_coord(x, jx, width);
                let v: i64 = crate::render::generator::uv_coord(py, jy, full_h);
                let ray = cam.cast(u, v);
                let c = ray_colour(ray, list, features.max_depth, rng);
                proof {
                    assert(ray == spec_gen_ray(cam, dims, x as int, py as int, jx as int, jy as int));
                    assert((c, rng.state) == spec_sample(
                        *list,
                        cam,
                        dims,
                        ns,
                        depth_s,
                        x as int,
                        py as int,
                        s_smp,
                    ));
                }
                let new_acc = acc.add(c);
                proof {
                    assert(col_in(new_acc, (smp as int + 1) * 0x40000)) by (nonlinear_arith)
                        requires
                            col_in(acc, smp as int * 0x40000),
                            col_in(c, 0x40000),
                            new_acc.r == acc.r + c.r,
                            new_acc.g == acc.g + c.g,
                            new_acc.b == acc.b + c.b,
                            new_acc.a == acc.a + c.a,
                            smp >= 0,
                    {}
                }
                acc = new_acc;
                smp = smp + 1;
            }
            // Finalize the pixel.
            proof {
                assert(ns - smp as int <= 0);
                assert(spec_accum_from(
                    *list,
                    cam,
                    dims,
                    ns,
                    depth_s,
                    x as int,
                    py as int,
                    ns,
                    (0, 0, 0, 0),
                    s_pix,
                ) == ((acc.r as int, acc.g as int, acc.b as int, acc.a as int), rng.state));
                crate::math::fixed::lemma_tdiv_magnitude(acc.r as int, ns);
                crate::math::fixed::lemma_tdiv_magnitude(acc.g as int, ns);
                crate::math::fixed::lemma_tdiv_magnitude(acc.b as int, ns);
                crate::math::fixed::lemma_tdiv_magnitude(acc.a as int, ns);
            }
            let avg = acc.scale_div(features.n_samples as i64);
            let shaped = if features.gamma_correction {
                avg.gamma()
            } else {
                avg
            };
            let final_c = shaped.opaque().clamp();
            proof {
                assert(final_c == spec_finalize(
                    (acc.r as int, acc.g as int, acc.b as int, acc.a as int),
                    ns,
                    gamma,
                ));
                assert((final_c, rng.state) == spec_pixel(
                    *list,
                    cam,
                    dims,
                    ns,
                    depth_s,
                    gamma,
                    x as int,
                    py as int,
                    s_pix,
                ));
            }
            let ghost pre = img;
            img.set(x, y, final_c);
            proof {
                Image::lemma_set_pix(pre, img, x as int, y as int, final_c);
                lemma_row_major(width as int, x as int, y as int);
                assert((y as int * width as int + x as int) + 1 == y as int * width as int + (
                x as int + 1));
                assert(col01(final_c));
                let idx = y as int * width as int + x as int;
                assert(0 <= idx < img.pixels@.len()) by (nonlinear_arith)
                    requires
                        0 <= x < width,
                        0 <= y < band_h,
                        img.pixels@.len() == width as int * band_h as int,
                        idx == y as int * width as int + x as int,
                {}
                assert(img.pixels@ == pre.pixels@.update(idx, final_c));
                assert forall|i: int| 0 <= i < img.pixels@.len() implies col01(
                    #[trigger] img.pixels@[i],
                ) by {
                    if i == idx {
                        assert(img.pixels@[i] == final_c);
                    } else {
                        assert(img.pixels@[i] == pre.pixels@.update(idx, final_c)[i]);
                        assert(img.pixels@[i] == pre.pixels@[i]);
                    }
                }
            }
            x = x + 1;
        }
        proof {
            assert(y as int * width as int + width as int == (y as int + 1) * width as int)
                by (nonlinear_arith) {}
        }
        y = y + 1;
    }
    proof {
        assert(band_h as int * width as int == band_h as int * width as int);
    }
    img
}

/// Walking a band's pixels from its starting row continues the whole
/// frame's pixel walk: the state after `p` pixels of a band whose rows
/// start at `yoff`, started from the state the frame reaches at that
/// row, is the state the frame reaches `p` pixels later.
pub proof fn lemma_band_chain(
    hl: HitList,
    cam: Camera,
    dims: (u32, u32),
    ns: int,
    depth: nat,
    gamma: bool,
    yoff: int,
    p: nat,
    s0: u64,
)
    requires
        yoff >= 0,
        dims.0 >= 1,
    ensures
        spec_band_state(
            hl,
            cam,
            dims,
            ns,
            depth,
            gamma,
            yoff,
            p,
            spec_band_state(hl, cam, dims, ns, depth, gamma, 0, (yoff * dims.0 as int) as nat, s0),
        ) == spec_band_state(
            hl,
            cam,
            dims,
            ns,
            depth,
            gamma,
            0,
            (yoff * dims.0 as int + p) as nat,
            s0,
        ),
    decreases p,
{
    let w = dims.0 as int;
    if p > 0 {
        lemma_band_chain(hl, cam, dims, ns, depth, gamma, yoff, (p - 1) as nat, s0);
        let q = yoff * w + (p - 1);
        assert(w * yoff == yoff * w) by (nonlinear_arith) {}
        vstd::arithmetic::div_mod::lemma_mod_multiples_vanish(yoff, p as int - 1, w);
        vstd::arithmetic::div_mod::lemma_hoist_over_denominator(p as int - 1, yoff, w as nat);
        assert(q % w == (p as int - 1) % w);
        assert(q / w == yoff + (p as int - 1) / w);
        assert((yoff * w + p) as nat == (q + 1) as nat);
    }
}

/// In an empty scene no ray hits anything: with any bounce budget left,
/// its colour is exactly the sky gradient and no randomness is consumed.
pub proof fn lemma_empty_scene_sky(hl: HitList, ray: Ray, depth: nat, s: u64)
    requires
        hl.sphere_staticcolour.items@.len() == 0,
        hl.sphere_normalmap.items@.len() == 0,
        hl.sphere_diffuse.items@.len() == 0,
        depth >= 1,
    ensures
        spec_ray_colour(hl, ray, depth, s) == (spec_sky(ray), s),
{
    let none: Option<(HitIndex, crate::specifications::objects::spec::HitRecord)> = None;
    assert(is_closest_hit_combined(hl, ray, 0, FP_T_MAX as int, none));
    lemma_closest_is(hl, ray, 0, FP_T_MAX as int, none);
}

/// Averaging a pixel made of `k` identical samples gives back exactly
/// the value one sample would: accumulating the colour `k` times and
/// dividing by `k` is the same as finalizing the single sample.
pub proof fn lemma_average_of_equal_samples(c: (int, int, int, int), k: int, gamma: bool)
    requires
        k >= 1,
    ensures
        spec_finalize((k * c.0, k * c.1, k * c.2, k * c.3), k, gamma) == spec_finalize(c, 1, gamma),
{
    lemma_tdiv_cancel(c.0, k);
    lemma_tdiv_cancel(c.1, k);
    lemma_tdiv_cancel(c.2, k);
    lemma_tdiv_cancel(c.3, k);
    lemma_tdiv_cancel(c.0, 1);
    lemma_tdiv_cancel(c.1, 1);
    lemma_tdiv_cancel(c.2, 1);
    lemma_tdiv_cancel(c.3, 1);
    assert(1 * c.0 == c.0 && 1 * c.1 == c.1 && 1 * c.2 == c.2 && 1 * c.3 == c.3);
}

/// Multiplying by a positive factor and truncating the quotient away
/// again is the identity.
proof fn lemma_tdiv_cancel(x: int, k: int)
    requires
        k >= 1,
    ensures
        tdiv(k * x, k) == x,
{
    if x >= 0 {
        vstd::arithmetic::div_mod::lemma_div_multiples_vanish(x, k);
        assert(k * x >= 0) by (nonlinear_arith)
            requires
                x >= 0,
                k >= 1,
        {}
    } else {
        vstd::arithmetic::div_mod::lemma_div_multiples_vanish(-x, k);
        assert(k * x < 0) by (nonlinear_arith)
            requires
                x < 0,
                k >= 1,
        {}
        assert(-(k * x) == k * (-x)) by (nonlinear_arith) {}
    }
}

/// Splitting a row-major pixel index recovers its coordinates.
proof fn lemma_row_major(w: int, x: int, y: int)
    requires
        0 <= x < w,
        0 <= y,
    ensures
        (y * w + x) % w == x,
        (y * w + x) / w == y,
{
    assert(y * w == w * y) by (nonlinear_arith) {}
    vstd::arithmetic::div_mod::lemma_mod_multiples_vanish(y, x, w);
    vstd::arithmetic::div_mod::lemma_small_mod(x as nat, w as nat);
    vstd::arithmetic::div_mod::lemma_hoist_over_denominator(x, y, w as nat);
    assert(x / w == 0) by (nonlinear_arith)
        requires
            0 <= x < w,
    {}
}

/// Computes the normal-map colour of a hit, for the proof above.
proof fn lemma_nm_bound(n: int)
    requires
        -0x40000 <= n <= 0x40000,
    ensures
        -0x40000 <= spec_normal_map_ch(n) <= 0x40000,
{
    lemma_mul_bound(32768, n + 65536, 32768, 0x50000);
    lemma_fmul_range(32768, n + 65536, 0x280000000);
}

} // verus!
