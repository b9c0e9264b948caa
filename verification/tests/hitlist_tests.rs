//! Tests for scene flattening, hit resolution and scattering.

use raytracer::common::random::Rng;
use raytracer::hitlist::{HitIndex, HitList};
use raytracer::math::colour::Colour;
use raytracer::math::fixed::{FP_ONE, FP_T_MAX};
use raytracer::math::ray::Ray;
use raytracer::math::vec3::Vec3;
use raytracer::specifications::materials::{Diffuse, NormalMap, StaticColour};
use raytracer::specifications::objects::Sphere;
use raytracer::specifications::scene::{check_objects, IntoInner, Material, Object};

fn red() -> Colour {
    Colour::new(FP_ONE, 0, 0, FP_ONE)
}

fn green() -> Colour {
    Colour::new(0, FP_ONE, 0, FP_ONE)
}

fn static_sphere(z: i64, colour: Colour) -> Object {
    Object::Sphere(Sphere {
        center: Vec3::new(0, 0, z),
        radius: 32768,
        material: Material::StaticColour(StaticColour { colour }),
    })
}

fn off_axis_sphere(x: i64) -> Object {
    Object::Sphere(Sphere {
        center: Vec3::new(x, 0, -2 * FP_ONE),
        radius: 32768,
        material: Material::StaticColour(StaticColour { colour: green() }),
    })
}

fn down_z() -> Ray {
    Ray::new(Vec3::zeroes(), Vec3::new(0, 0, -FP_ONE))
}

#[test]
fn scene_validation_accepts_and_rejects() {
    let good = vec![static_sphere(-2 * FP_ONE, red())];
    assert!(check_objects(&good));
    let bad = vec![Object::Sphere(Sphere {
        center: Vec3::new(0, 0, 0),
        radius: 0,
        material: Material::NormalMap(NormalMap),
    })];
    assert!(!check_objects(&bad));
}

#[test]
fn single_sphere_exact_hit() {
    let objects = vec![static_sphere(-FP_ONE, red())];
    let list = HitList::from(&objects);
    let (index, rec) = list.hit(down_z(), 0, FP_T_MAX).expect("sphere must be hit");
    assert_eq!(index, HitIndex::SphereStaticColour(0));
    assert_eq!(rec.t, 32768);
    assert_eq!(rec.hit, Vec3::new(0, 0, -32768));
    assert_eq!(rec.normal, Vec3::new(0, 0, FP_ONE));
    assert!(rec.front_face);
}

#[test]
fn closest_sphere_wins_regardless_of_order() {
    // The nearer sphere's identity is returned whichever way the two
    // were inserted.
    let near_first = vec![static_sphere(-2 * FP_ONE, red()), static_sphere(-4 * FP_ONE, green())];
    let far_first = vec![static_sphere(-4 * FP_ONE, green()), static_sphere(-2 * FP_ONE, red())];
    let l1 = HitList::from(&near_first);
    let l2 = HitList::from(&far_first);
    let (i1, r1) = l1.hit(down_z(), 0, FP_T_MAX).expect("hit");
    let (i2, r2) = l2.hit(down_z(), 0, FP_T_MAX).expect("hit");
    assert_eq!(r1.t, r2.t);
    let mut rng = Rng::seeded(7);
    let (_, c1) = l1.scatter(down_z(), i1, r1, &mut rng);
    let (_, c2) = l2.scatter(down_z(), i2, r2, &mut rng);
    assert_eq!(c1, red());
    assert_eq!(c2, red());
}

#[test]
fn group_pruning_never_changes_the_result() {
    // A group of spheres far outside the ray's path contributes nothing,
    // whether it stands before or after the sphere that is hit.
    let group = Object::Group(vec![
        off_axis_sphere(100 * FP_ONE),
        off_axis_sphere(101 * FP_ONE),
        off_axis_sphere(102 * FP_ONE),
    ]);
    let group2 = Object::Group(vec![
        off_axis_sphere(100 * FP_ONE),
        off_axis_sphere(101 * FP_ONE),
        off_axis_sphere(102 * FP_ONE),
    ]);
    let hit_sphere = static_sphere(-2 * FP_ONE, red());
    let hit_sphere2 = static_sphere(-2 * FP_ONE, red());
    let before = vec![group, hit_sphere];
    let after = vec![hit_sphere2, group2];
    let lb = HitList::from(&before);
    let la = HitList::from(&after);
    let (ib, rb) = lb.hit(down_z(), 0, FP_T_MAX).expect("hit");
    let (ia, ra) = la.hit(down_z(), 0, FP_T_MAX).expect("hit");
    assert_eq!(rb.t, ra.t);
    assert_eq!(rb.hit, ra.hit);
    assert_eq!(rb.normal, ra.normal);
    let mut rng = Rng::seeded(1);
    let (_, cb) = lb.scatter(down_z(), ib, rb, &mut rng);
    let (_, ca) = la.scatter(down_z(), ia, ra, &mut rng);
    assert_eq!(cb, red());
    assert_eq!(ca, red());
}

#[test]
fn empty_scene_hits_nothing() {
    let objects: Vec<Object> = vec![];
    let list = HitList::from(&objects);
    assert!(list.hit(down_z(), 0, FP_T_MAX).is_none());
    assert_eq!(list.len(), 0);
}

#[test]
fn nested_groups_flatten_with_markers() {
    let inner = Object::Group(vec![static_sphere(-2 * FP_ONE, red())]);
    let outer = Object::Group(vec![inner, static_sphere(-3 * FP_ONE, green())]);
    let objects = vec![outer];
    let list = HitList::from(&objects);
    // Each group leaves a marker in every material list: two markers in
    // each of the three lists, plus the two sphere entries.
    assert_eq!(list.n_spheres(), 8);
    let (_, rec) = list.hit(down_z(), 0, FP_T_MAX).expect("hit");
    assert_eq!(rec.t, 98304);
}

#[test]
fn scatter_dispatches_per_material() {
    let objects = vec![
        static_sphere(-FP_ONE, red()),
        Object::Sphere(Sphere {
            center: Vec3::new(0, 0, -4 * FP_ONE),
            radius: 32768,
            material: Material::Diffuse(Diffuse { colour: green() }),
        }),
    ];
    let list = HitList::from(&objects);
    let ray = down_z();
    let (index, rec) = list.hit(ray, 0, FP_T_MAX).expect("hit");
    assert_eq!(index, HitIndex::SphereStaticColour(0));
    let mut rng = Rng::seeded(3);
    let (bounce, colour) = list.scatter(ray, index, rec, &mut rng);
    assert!(bounce.is_none());
    assert_eq!(colour, red());
}

#[test]
fn into_inner_extracts_matching_materials() {
    let m = Material::StaticColour(StaticColour { colour: red() });
    let found: Option<StaticColour> = m.into_inner();
    assert_eq!(found, Some(StaticColour { colour: red() }));
    let missing: Option<Diffuse> = m.into_inner();
    assert!(missing.is_none());
    let sphere: Option<Sphere<StaticColour>> = static_sphere(-FP_ONE, red()).into_inner();
    let s = sphere.expect("a static-colour sphere");
    assert_eq!(s.center, Vec3::new(0, 0, -FP_ONE));
    assert_eq!(s.radius, 32768);
    let group: Option<Sphere<StaticColour>> = Object::Group(vec![]).into_inner();
    assert!(group.is_none());
}

#[test]
fn normal_map_colour_from_surface_normal() {
    // Hitting the normal-map sphere straight on gives the colour
    // 0.5 * (normal + 1) with the normal (0, 0, 1), alpha exactly one.
    let objects = vec![Object::Sphere(Sphere {
        center: Vec3::new(0, 0, -FP_ONE),
        radius: 32768,
        material: Material::NormalMap(NormalMap),
    })];
    let list = HitList::from(&objects);
    let ray = down_z();
    let (index, rec) = list.hit(ray, 0, FP_T_MAX).expect("hit");
    assert_eq!(index, HitIndex::SphereNormalMap(0));
    let mut rng = Rng::seeded(0);
    let (bounce, colour) = list.scatter(ray, index, rec, &mut rng);
    assert!(bounce.is_none());
    assert_eq!(colour, Colour::new(32768, 32768, FP_ONE, FP_ONE));
}

#[test]
fn diffuse_scatter_never_degenerates() {
    // Whatever the generator produces, the bounce direction never comes
    // out as the zero vector.
    let diffuse = Diffuse { colour: green() };
    let objects = vec![Object::Sphere(Sphere {
        center: Vec3::new(0, 0, -FP_ONE),
        radius: 32768,
        material: Material::Diffuse(diffuse),
    })];
    let list = HitList::from(&objects);
    let ray = down_z();
    let (index, rec) = list.hit(ray, 0, FP_T_MAX).expect("hit");
    for seed in 0..64u64 {
        let mut rng = Rng::seeded(seed);
        let (bounce, _) = list.scatter(ray, index, rec, &mut rng);
        let b = bounce.expect("diffuse always bounces");
        assert!(!b.direct.is_nearly_zero());
        assert_eq!(b.origin, rec.hit);
    }
}
