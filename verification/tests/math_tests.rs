//! Tests for the fixed-point arithmetic, vectors, colours and boxes.

use raytracer::math::aabb::{surround, AABB};
use raytracer::math::camera::Camera;
use raytracer::math::colour::Colour;
use raytracer::math::fixed::{div_fp, mul_fp, sqrt_fp, tdiv64, FP_ONE, FP_T_MAX};
use raytracer::math::ray::Ray;
use raytracer::math::vec3::{cross3, dot3, Vec3};

#[test]
fn fixed_point_products_truncate_toward_zero() {
    assert_eq!(mul_fp(FP_ONE, FP_ONE), FP_ONE);
    assert_eq!(mul_fp(32768, 32768), 16384);
    assert_eq!(mul_fp(-32768, 32768), -16384);
    assert_eq!(mul_fp(3, 3), 0);
}

#[test]
fn fixed_point_quotients() {
    assert_eq!(div_fp(FP_ONE, 2 * FP_ONE), 32768);
    assert_eq!(div_fp(-FP_ONE, 2 * FP_ONE), -32768);
    assert_eq!(div_fp(FP_ONE, -2 * FP_ONE), -32768);
    assert_eq!(tdiv64(7, 2), 3);
    assert_eq!(tdiv64(-7, 2), -3);
}

#[test]
fn fixed_point_square_roots_round_down() {
    assert_eq!(sqrt_fp(FP_ONE), FP_ONE);
    assert_eq!(sqrt_fp(4 * FP_ONE), 2 * FP_ONE);
    assert_eq!(sqrt_fp(16384), 32768);
    assert_eq!(sqrt_fp(2 * FP_ONE), 92681);
    assert_eq!(sqrt_fp(0), 0);
}

#[test]
fn vector_dot_and_cross() {
    let a = Vec3::new(FP_ONE, 0, 0);
    let b = Vec3::new(0, FP_ONE, 0);
    assert_eq!(dot3(a, b), 0);
    assert_eq!(dot3(a, a), FP_ONE);
    let c = cross3(a, b);
    assert_eq!(c, Vec3::new(0, 0, FP_ONE));
}

#[test]
fn unit_vector_of_axis_vector() {
    let v = Vec3::new(2 * FP_ONE, 0, 0);
    assert_eq!(v.unit(), Vec3::new(FP_ONE, 0, 0));
    let z = Vec3::zeroes();
    assert_eq!(z.unit(), Vec3::zeroes());
    assert!(z.is_nearly_zero());
    assert!(!v.is_nearly_zero());
}

#[test]
fn colour_operations() {
    let c = Colour::new(FP_ONE, 32768, 0, 0);
    let d = c.mul(Colour::new(32768, 32768, FP_ONE, FP_ONE));
    assert_eq!(d, Colour::new(32768, 16384, 0, 0));
    assert_eq!(c.opaque().a, FP_ONE);
    assert_eq!(Colour::new(-5, 70000, 100, FP_ONE).clamp(), Colour::new(0, FP_ONE, 100, FP_ONE));
    assert_eq!(Colour::new(16384, FP_ONE, 0, 5).gamma(), Colour::new(32768, FP_ONE, 0, 5));
    assert_eq!(Colour::new(9, 12, -9, 0).scale_div(3), Colour::new(3, 4, -3, 0));
}

#[test]
fn ray_points_along_its_direction() {
    let r = Ray::new(Vec3::new(FP_ONE, 0, 0), Vec3::new(0, 0, -FP_ONE));
    assert_eq!(r.at(2 * FP_ONE), Vec3::new(FP_ONE, 0, -2 * FP_ONE));
}

#[test]
fn box_hit_straight_on_and_missed() {
    let bb = AABB::new(
        Vec3::new(-FP_ONE, -FP_ONE, -3 * FP_ONE),
        Vec3::new(FP_ONE, FP_ONE, -2 * FP_ONE),
    );
    let toward = Ray::new(Vec3::zeroes(), Vec3::new(0, 0, -FP_ONE));
    let away = Ray::new(Vec3::zeroes(), Vec3::new(0, 0, FP_ONE));
    let sideways = Ray::new(Vec3::new(5 * FP_ONE, 0, 0), Vec3::new(0, 0, -FP_ONE));
    assert!(bb.hit(toward, 0, FP_T_MAX));
    assert!(!bb.hit(away, 0, FP_T_MAX));
    assert!(!bb.hit(sideways, 0, FP_T_MAX));
}

#[test]
fn box_hit_reverses_with_mirrored_range() {
    // Reversing the ray's direction and mirroring the parameter range
    // leaves the slab test's verdict unchanged.
    let bb = AABB::new(
        Vec3::new(-FP_ONE, -FP_ONE, -3 * FP_ONE),
        Vec3::new(FP_ONE, FP_ONE, -2 * FP_ONE),
    );
    let cases = [
        Ray::new(Vec3::zeroes(), Vec3::new(0, 0, -FP_ONE)),
        Ray::new(Vec3::zeroes(), Vec3::new(0, 0, FP_ONE)),
        Ray::new(Vec3::new(5 * FP_ONE, 0, 0), Vec3::new(0, 0, -FP_ONE)),
        Ray::new(Vec3::new(32768, -32768, 0), Vec3::new(-9000, 4000, -FP_ONE)),
    ];
    for ray in cases {
        let rev = Ray::new(ray.origin, ray.direct.neg());
        assert_eq!(bb.hit(ray, 0, FP_T_MAX), bb.hit(rev, -FP_T_MAX, 0));
    }
}

#[test]
fn surround_covers_both_boxes() {
    let b1 = AABB::new(Vec3::new(0, 0, 0), Vec3::new(FP_ONE, FP_ONE, FP_ONE));
    let b2 = AABB::new(
        Vec3::new(-FP_ONE, 2 * FP_ONE, 0),
        Vec3::new(0, 3 * FP_ONE, FP_ONE),
    );
    let s = surround(b1, b2);
    assert_eq!(s.a, Vec3::new(-FP_ONE, 0, 0));
    assert_eq!(s.b, Vec3::new(FP_ONE, 3 * FP_ONE, FP_ONE));
}

#[test]
fn vector_length_of_pythagorean_triple() {
    let v = Vec3::new(3 * FP_ONE, 4 * FP_ONE, 0);
    assert_eq!(v.length2(), 25 * FP_ONE);
    assert_eq!(v.length(), 5 * FP_ONE);
    assert_eq!(v.len(), 3);
}

#[test]
fn surround_list_fits_every_box() {
    let boxes = vec![
        AABB::new(Vec3::new(0, 0, 0), Vec3::new(FP_ONE, FP_ONE, FP_ONE)),
        AABB::new(Vec3::new(-FP_ONE, 0, 0), Vec3::new(0, 2 * FP_ONE, FP_ONE)),
        AABB::new(Vec3::new(0, -3 * FP_ONE, 0), Vec3::new(FP_ONE, 0, 4 * FP_ONE)),
    ];
    let all = raytracer::specifications::objects::utils::surround_list(&boxes);
    assert_eq!(all.a, Vec3::new(-FP_ONE, -3 * FP_ONE, 0));
    assert_eq!(all.b, Vec3::new(FP_ONE, 2 * FP_ONE, 4 * FP_ONE));
    let none: Vec<AABB> = vec![];
    let empty = raytracer::specifications::objects::utils::surround_list(&none);
    assert_eq!(empty.a, Vec3::zeroes());
    assert_eq!(empty.b, Vec3::zeroes());
}

#[test]
fn camera_viewport_vectors() {
    let cam = Camera::new((2 * FP_ONE, 2 * FP_ONE), FP_ONE);
    assert_eq!(cam.origin, Vec3::zeroes());
    assert_eq!(cam.horizontal, Vec3::new(2 * FP_ONE, 0, 0));
    assert_eq!(cam.vertical, Vec3::new(0, 2 * FP_ONE, 0));
    assert_eq!(cam.lower_left_corner, Vec3::new(-FP_ONE, -FP_ONE, -FP_ONE));
    let ray = cam.cast(0, 0);
    assert_eq!(ray.direct, Vec3::new(-FP_ONE, -FP_ONE, -FP_ONE));
    let center = cam.cast(32768, 32768);
    assert_eq!(center.direct, Vec3::new(0, 0, -FP_ONE));
}
