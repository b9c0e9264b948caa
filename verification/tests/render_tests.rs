//! Tests for the renderers: ray colours, frames, bands and the
//! generator.

use raytracer::common::random::Rng;
use raytracer::hitlist::HitList;
use raytracer::math::colour::Colour;
use raytracer::math::fixed::{FP_ONE, FP_T_MAX};
use raytracer::math::ray::Ray;
use raytracer::math::vec3::Vec3;
use raytracer::render::frame::{build_camera, ray_colour};
use raytracer::render::generator::RayGenerator;
use raytracer::render::image::Image;
use raytracer::render::multi::{band_extent, MultiThreadRenderer, MultiThreadRendererConfig};
use raytracer::render::single::SingleThreadRenderer;
use raytracer::specifications::features::{Features, FeaturesCli, FeaturesFile};
use raytracer::specifications::materials::StaticColour;
use raytracer::specifications::objects::Sphere;
use raytracer::specifications::scene::{Material, Object};

fn red() -> Colour {
    Colour::new(FP_ONE, 0, 0, FP_ONE)
}

fn red_sphere_scene() -> Vec<Object> {
    vec![Object::Sphere(Sphere {
        center: Vec3::new(0, 0, -FP_ONE),
        radius: 32768,
        material: Material::StaticColour(StaticColour { colour: red() }),
    })]
}

fn features(n_samples: usize, max_depth: usize, gamma: bool) -> Features {
    Features { gamma_correction: gamma, n_samples, max_depth }
}

#[test]
fn depth_zero_is_always_opaque_black() {
    // With no bounce budget, any ray in any scene is opaque black.
    let objects = red_sphere_scene();
    let list = HitList::from(&objects);
    let rays = [
        Ray::new(Vec3::zeroes(), Vec3::new(0, 0, -FP_ONE)),
        Ray::new(Vec3::new(FP_ONE, FP_ONE, 0), Vec3::new(0, -FP_ONE, 0)),
    ];
    for ray in rays {
        let mut rng = Rng::seeded(11);
        let c = ray_colour(ray, &list, 0, &mut rng);
        assert_eq!(c, Colour::new(0, 0, 0, FP_ONE));
    }
}

#[test]
fn sky_gradient_exact_value() {
    // A ray that hits nothing yields the white-to-blue gradient; for the
    // corner ray with direction (-1,-1,-1) the exact fixed-point value
    // is known.
    let objects: Vec<Object> = vec![];
    let list = HitList::from(&objects);
    let ray = Ray::new(Vec3::zeroes(), Vec3::new(-FP_ONE, -FP_ONE, -FP_ONE));
    let mut rng = Rng::seeded(0);
    let c = ray_colour(ray, &list, 5, &mut rng);
    assert_eq!(c, Colour::new(58611, 61381, 65536, 65536));
}

#[test]
fn empty_scene_ignores_depth() {
    // With one sample per pixel, an empty scene renders the same image
    // whatever the bounce budget: no recursion is ever entered.
    let objects: Vec<Object> = vec![];
    let list = HitList::from(&objects);
    let r1 = SingleThreadRenderer::new((4, 4), features(1, 1, false), false);
    let r2 = SingleThreadRenderer::new((4, 4), features(1, 50, false), false);
    let mut rng1 = Rng::seeded(5);
    let mut rng2 = Rng::seeded(99);
    let img1 = r1.render_frame(&list, &mut rng1);
    let img2 = r2.render_frame(&list, &mut rng2);
    for y in 0..4u32 {
        for x in 0..4u32 {
            assert_eq!(img1.get(x, y), img2.get(x, y));
        }
    }
}

#[test]
fn empty_scene_corner_pixel_is_sky() {
    let objects: Vec<Object> = vec![];
    let list = HitList::from(&objects);
    let renderer = SingleThreadRenderer::new((2, 2), features(1, 7, false), false);
    let mut rng = Rng::seeded(0);
    let img = renderer.render_frame(&list, &mut rng);
    assert_eq!(img.get(0, 0), Colour::new(58611, 61381, 65536, 65536));
}

#[test]
fn single_sphere_scene_exact_pixels() {
    // The classic scenario: a static red sphere in front of the camera.
    // Pixels whose ray hits it are exactly opaque red; the others lie on
    // the sky gradient with full alpha.
    let objects = red_sphere_scene();
    let list = HitList::from(&objects);
    let renderer = SingleThreadRenderer::new((100, 100), features(1, 1, false), false);
    let mut rng = Rng::seeded(0);
    let img = renderer.render_frame(&list, &mut rng);
    assert_eq!(img.get(50, 50), Colour::new(FP_ONE, 0, 0, FP_ONE));
    let corner = img.get(0, 0);
    assert_ne!(corner, Colour::new(FP_ONE, 0, 0, FP_ONE));
    assert_eq!(corner.a, FP_ONE);
    assert_eq!(corner.b, FP_ONE);
    // Every pixel is either exactly red or on the gradient (blue full).
    for y in 0..100u32 {
        for x in 0..100u32 {
            let c = img.get(x, y);
            assert_eq!(c.a, FP_ONE);
            assert!(c == Colour::new(FP_ONE, 0, 0, FP_ONE) || c.b == FP_ONE);
        }
    }
}

#[test]
fn averaging_identical_samples_round_trips() {
    // A pixel whose samples all return the same colour averages back to
    // exactly that colour: sampling the static sphere four times equals
    // sampling it once.
    let objects = red_sphere_scene();
    let list = HitList::from(&objects);
    let once = SingleThreadRenderer::new((10, 10), features(1, 1, true), false);
    let four = SingleThreadRenderer::new((10, 10), features(4, 1, true), false);
    let mut rng1 = Rng::seeded(21);
    let mut rng4 = Rng::seeded(42);
    let img1 = once.render_frame(&list, &mut rng1);
    let img4 = four.render_frame(&list, &mut rng4);
    // The centre pixel hits the sphere under every jitter.
    assert_eq!(img1.get(5, 5), Colour::new(FP_ONE, 0, 0, FP_ONE));
    assert_eq!(img4.get(5, 5), img1.get(5, 5));
}

#[test]
fn multi_threaded_render_matches_single() {
    // With sampling controlled (one deterministic sample per pixel), the
    // banded render is pixel-for-pixel the single render.
    let objects = red_sphere_scene();
    let list = HitList::from(&objects);
    let feats = features(1, 3, true);
    let single = SingleThreadRenderer::new((8, 8), feats, false);
    let multi = MultiThreadRenderer::new(
        (8, 8),
        feats,
        MultiThreadRendererConfig { n_threads: Some(4) },
        None,
    )
    .expect("configured thread count");
    let mut rng_s = Rng::seeded(77);
    let mut rng_m = Rng::seeded(77);
    let img_s = single.render_frame(&list, &mut rng_s);
    let img_m = multi.render_frame(&list, &mut rng_m);
    for y in 0..8u32 {
        for x in 0..8u32 {
            assert_eq!(img_s.get(x, y), img_m.get(x, y));
        }
    }
}

#[test]
fn diffuse_tracing_is_deterministic_per_seed() {
    // The same seed reproduces the same bounced colour; the generator is
    // the only source of randomness.
    let objects = vec![Object::Sphere(Sphere {
        center: Vec3::new(0, 0, -FP_ONE),
        radius: 32768,
        material: Material::Diffuse(raytracer::specifications::materials::Diffuse {
            colour: Colour::new(0, FP_ONE, 0, FP_ONE),
        }),
    })];
    let list = HitList::from(&objects);
    let ray = Ray::new(Vec3::zeroes(), Vec3::new(0, 0, -FP_ONE));
    let mut rng1 = Rng::seeded(424242);
    let mut rng2 = Rng::seeded(424242);
    let c1 = ray_colour(ray, &list, 8, &mut rng1);
    let c2 = ray_colour(ray, &list, 8, &mut rng2);
    assert_eq!(c1, c2);
    // The attenuation keeps only the green channel.
    assert_eq!(c1.r, 0);
    assert_eq!(c1.b, 0);
}

#[test]
fn multi_renderer_thread_count_resolution() {
    let feats = features(1, 1, true);
    let explicit = MultiThreadRenderer::new(
        (4, 4),
        feats,
        MultiThreadRendererConfig { n_threads: Some(3) },
        Some(8),
    )
    .expect("explicit");
    assert_eq!(explicit.n_threads, 3);
    let queried = MultiThreadRenderer::new(
        (4, 4),
        feats,
        MultiThreadRendererConfig::default(),
        Some(8),
    )
    .expect("queried");
    assert_eq!(queried.n_threads, 8);
    assert!(MultiThreadRenderer::new(
        (4, 4),
        feats,
        MultiThreadRendererConfig::default(),
        None,
    )
    .is_err());
}

#[test]
fn generator_walks_samples_then_pixels() {
    let cam = build_camera(2, 2);
    let mut g = RayGenerator::new(cam, (2, 2), 1);
    let mut rng = Rng::seeded(0);
    let first = g.next(&mut rng).expect("first ray");
    assert_eq!(first.direct, Vec3::new(-FP_ONE, -FP_ONE, -FP_ONE));
    assert!(g.next(&mut rng).is_some());
    assert!(g.next(&mut rng).is_some());
    assert!(g.next(&mut rng).is_some());
    assert!(g.next(&mut rng).is_none());
}

#[test]
fn coordinate_enumerate_counts_sample_fastest() {
    // The wrapper yields exactly the wrapped generator's rays, for as
    // long as the generator does, with the sample index varying fastest,
    // then the column, then the row.
    let cam = build_camera(2, 2);
    let g = RayGenerator::new(cam, (2, 2), 2);
    let mut coords = g.coords();
    let mut rng = Rng::seeded(9);
    let mut bare = RayGenerator::new(cam, (2, 2), 2);
    let mut bare_rng = Rng::seeded(9);
    let mut seen: Vec<(usize, u32, u32)> = Vec::new();
    while let Some((c, ray)) = coords.next(&mut rng) {
        seen.push(c);
        let expected = bare.next(&mut bare_rng).expect("the bare generator yields too");
        assert_eq!(ray, expected);
    }
    assert!(bare.next(&mut bare_rng).is_none());
    assert_eq!(
        seen,
        vec![
            (0, 0, 0),
            (1, 0, 0),
            (0, 1, 0),
            (1, 1, 0),
            (0, 0, 1),
            (1, 0, 1),
            (0, 1, 1),
            (1, 1, 1),
        ]
    );
}

#[test]
fn more_threads_than_rows_is_clamped() {
    // A worker count beyond the row count renders fine (clamped to one
    // band per row) and still equals the single-threaded render.
    let objects = red_sphere_scene();
    let list = HitList::from(&objects);
    let feats = features(1, 2, true);
    let single = SingleThreadRenderer::new((4, 4), feats, false);
    let multi = MultiThreadRenderer::new(
        (4, 4),
        feats,
        MultiThreadRendererConfig { n_threads: Some(64) },
        None,
    )
    .expect("configured thread count");
    let mut rng_s = Rng::seeded(5);
    let mut rng_m = Rng::seeded(5);
    let img_s = single.render_frame(&list, &mut rng_s);
    let img_m = multi.render_frame(&list, &mut rng_m);
    for y in 0..4u32 {
        for x in 0..4u32 {
            assert_eq!(img_s.get(x, y), img_m.get(x, y));
        }
    }
}

#[test]
fn band_partition_tiles_the_rows() {
    let mut covered = 0u32;
    for i in 0..3usize {
        let (y0, band_h) = band_extent(i, 3, 10);
        assert_eq!(y0, covered);
        assert!(band_h >= 1);
        covered += band_h;
    }
    assert_eq!(covered, 10);
    // The last band absorbs the remainder rows.
    assert_eq!(band_extent(2, 3, 10), (6, 4));
}

#[test]
fn image_move_into_places_band() {
    let mut target = Image::new((4, 4));
    let mut band = Image::new((4, 2));
    band.set(1, 0, Colour::new(1, 2, 3, 4));
    band.set(3, 1, Colour::new(5, 6, 7, 8));
    target.move_into(band, (0, 2));
    assert_eq!(target.get(1, 2), Colour::new(1, 2, 3, 4));
    assert_eq!(target.get(3, 3), Colour::new(5, 6, 7, 8));
    assert_eq!(target.get(0, 0), Colour::zeroes());
    assert_eq!(target.len(), 16);
    assert_eq!(target.dims(), (4, 4));
    assert_eq!(target.width(), 4);
    assert_eq!(target.height(), 4);
}

#[test]
fn image_bytes_flip_rows_and_round() {
    let mut img = Image::new((2, 2));
    img.set(0, 0, Colour::new(FP_ONE, 0, 32768, FP_ONE));
    img.set(1, 1, Colour::new(0, FP_ONE, 0, FP_ONE));
    let bytes = img.to_rgba8();
    assert_eq!(bytes.len(), 16);
    // Row 0 of the output is the top of the picture: image row 1.
    assert_eq!(&bytes[4..8], &[0, 255, 0, 255]);
    // Row 1 of the output is image row 0.
    assert_eq!(&bytes[8..12], &[255, 0, 128, 255]);
}

#[test]
fn features_precedence() {
    let file = FeaturesFile {
        gamma_correction: Some(false),
        n_samples: Some(7),
        max_depth: Some(9),
    };
    let cli = FeaturesCli {
        disable_gamma_correction: false,
        disable_anti_aliasing: false,
        anti_aliasing_rays: None,
        ray_max_depth: None,
    };
    let f = Features::new(Some(file), cli);
    assert_eq!(f.gamma_correction, false);
    assert_eq!(f.n_samples, 7);
    assert_eq!(f.max_depth, 9);

    let defaults = Features::new(None, cli);
    assert_eq!(defaults.gamma_correction, true);
    assert_eq!(defaults.n_samples, 100);
    assert_eq!(defaults.max_depth, 50);

    let override_cli = FeaturesCli {
        disable_gamma_correction: true,
        disable_anti_aliasing: true,
        anti_aliasing_rays: Some(33),
        ray_max_depth: Some(2),
    };
    let forced = Features::new(Some(file), override_cli);
    assert_eq!(forced.gamma_correction, false);
    assert_eq!(forced.n_samples, 1);
    assert_eq!(forced.max_depth, 2);
}
