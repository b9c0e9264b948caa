//! The scene description: a recursive tree of objects with materials
//! attached, as the scene loader hands it over, plus its validity check.

use vstd::prelude::*;

use crate::math::vec3::vec_in;
use crate::specifications::materials::{Diffuse, NormalMap, StaticColour};
use crate::specifications::objects::sphere::{sphere_ok, Sphere};

verus! {

/// Helper trait to retrieve the inner value of the [`Object`] and
/// [`Material`] enums, where the variant matches.
pub trait IntoInner<T>: Sized {
    /// The inner value this conversion yields, if the variant matches.
    spec fn inner_spec(self) -> Option<T>;

    /// Returns the inner value if this is the matching variant.
    fn into_inner(self) -> (r: Option<T>)
        ensures
            r == self.inner_spec(),
    ;
}

/// An object of the scene: a sphere with a material, or a group of
/// objects considered as one.
#[derive(Debug)]
pub enum Object {
    /// A perfect sphere.
    Sphere(Sphere<Material>),
    /// A group of objects.
    Group(Vec<Object>),
}

/// A material, independent of the object it covers.
#[derive(Clone, Copy, Debug)]
pub enum Material {
    /// A non-lighted static colour.
    StaticColour(StaticColour),
    /// A non-lighted normal map.
    NormalMap(NormalMap),
    /// The basic diffuse material.
    Diffuse(Diffuse),
}

impl IntoInner<StaticColour> for Material {
    open spec fn inner_spec(self) -> Option<StaticColour> {
        match self {
            Material::StaticColour(c) => Some(c),
            _ => None,
        }
    }

    fn into_inner(self) -> (r: Option<StaticColour>) {
        if let Material::StaticColour(c) = self {
            Some(c)
        } else {
            None
        }
    }
}

impl IntoInner<NormalMap> for Material {
    open spec fn inner_spec(self) -> Option<NormalMap> {
        match self {
            Material::NormalMap(nm) => Some(nm),
            _ => None,
        }
    }

    fn into_inner(self) -> (r: Option<NormalMap>) {
        if let Material::NormalMap(nm) = self {
            Some(nm)
        } else {
            None
        }
    }
}

impl IntoInner<Diffuse> for Material {
    open spec fn inner_spec(self) -> Option<Diffuse> {
        match self {
            Material::Diffuse(d) => Some(d),
            _ => None,
        }
    }

    fn into_inner(self) -> (r: Option<Diffuse>) {
        if let Material::Diffuse(d) = self {
            Some(d)
        } else {
            None
        }
    }
}

impl<T> IntoInner<Sphere<T>> for Object where Material: IntoInner<T> {
    /// The sphere with its inner material, where this object is a
    /// sphere of the matching material variant.
    open spec fn inner_spec(self) -> Option<Sphere<T>> {
        match self {
            Object::Sphere(s) => match s.material.inner_spec() {
                Some(m) => Some(Sphere { center: s.center, radius: s.radius, material: m }),
                None => None,
            },
            Object::Group(_) => None,
        }
    }

    fn into_inner(self) -> (r: Option<Sphere<T>>) {
        match self {
            Object::Sphere(s) => match s.material.into_inner() {
                Some(m) => Some(Sphere { center: s.center, radius: s.radius, material: m }),
                None => None,
            },
            Object::Group(_) => None,
        }
    }
}

/// The scene's file contents: the objects found in the scene.
#[derive(Debug)]
pub struct SceneFile {
    /// The objects found in this scene.
    pub objects: Vec<Object>,
}

/// Whether a material's colour channels lie within `[0, 1]`.
pub open spec fn mat_ok(m: Material) -> bool {
    match m {
        Material::StaticColour(c) => crate::math::colour::col01(c.colour),
        Material::NormalMap(_) => true,
        Material::Diffuse(d) => crate::math::colour::col01(d.colour),
    }
}

/// Whether an object's geometry and material lie within the supported
/// scene bounds.
pub open spec fn obj_ok(o: Object) -> bool
    decreases o,
{
    match o {
        Object::Sphere(sp) => sphere_ok(sp.center, sp.radius as int) && mat_ok(sp.material),
        Object::Group(v) => objects_ok(v@),
    }
}

/// Whether every object of a list lies within the supported scene bounds.
pub open spec fn objects_ok(s: Seq<Object>) -> bool
    decreases s,
{
    forall|i: int| 0 <= i < s.len() ==> obj_ok(#[trigger] s[i])
}

/// Checks that one object lies within the supported scene bounds.
pub fn check_object(o: &Object) -> (b: bool)
    ensures
        b == obj_ok(*o),
    decreases *o,
{
    match o {
        Object::Sphere(sp) => {
            let c = sp.center;
            let geometry_ok: bool = -crate::math::fixed::FP_COORD_MAX <= c.x && c.x
                <= crate::math::fixed::FP_COORD_MAX && -crate::math::fixed::FP_COORD_MAX <= c.y
                && c.y <= crate::math::fixed::FP_COORD_MAX && -crate::math::fixed::FP_COORD_MAX
                <= c.z && c.z <= crate::math::fixed::FP_COORD_MAX && 0 < sp.radius && sp.radius
                <= crate::math::fixed::FP_COORD_MAX;
            let material_ok: bool = match sp.material {
                Material::StaticColour(m) => check_colour(m.colour),
                Material::NormalMap(_) => true,
                Material::Diffuse(m) => check_colour(m.colour),
            };
            geometry_ok && material_ok
        },
        Object::Group(v) => check_objects(v),
    }
}

/// Checks that a colour's channels lie within `[0, 1]`.
fn check_colour(c: crate::math::colour::Colour) -> (b: bool)
    ensures
        b == crate::math::colour::col01(c),
{
    0 <= c.r && c.r <= crate::math::fixed::FP_ONE && 0 <= c.g && c.g
        <= crate::math::fixed::FP_ONE && 0 <= c.b && c.b <= crate::math::fixed::FP_ONE && 0 <= c.a
        && c.a <= crate::math::fixed::FP_ONE
}

/// Checks that every object of a scene lies within the supported bounds;
/// the renderer's builders ask for this of their input.
pub fn check_objects(objects: &Vec<Object>) -> (b: bool)
    ensures
        b == objects_ok(objects@),
    decreases objects@,
{
    let mut i: usize = 0;
    while i < objects.len()
        invariant
            0 <= i <= objects@.len(),
            forall|j: int| 0 <= j < i as int ==> obj_ok(#[trigger] objects@[j]),
        decreases objects@.len() - i as int,
    {
        let o = objects.get(i).unwrap();
        if !check_object(o) {
            return false;
        }
        i = i + 1;
    }
    true
}

} // verus!
