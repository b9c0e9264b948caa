//! The [`HitList`] and its parts: the scene flattened into one ordered
//! array per material type.
//!
//! A group of objects becomes a marker entry carrying the number of
//! flattened entries that belong to it and a box surrounding them; when a
//! ray misses that box, the whole group is skipped by jumping over that
//! many entries. The traversal contract below pins the result down: it is
//! exactly the closest candidate hit (an object entry whose own box and
//! sphere the ray hits), ties broken by list position — so the pruning
//! provably never changes the result.

use vstd::prelude::*;

use crate::common::random::{spec_rng_step3, Rng};
use crate::math::aabb::{box_contains, spec_aabb_hit, AABB};
use crate::math::colour::Colour;
use crate::math::ray::Ray;
use crate::math::vec3::{vec_in, Vec3};
use crate::specifications::materials::{Diffuse, NormalMap, StaticColour};
use crate::specifications::objects::spec::HitRecord;
use crate::specifications::objects::sphere::{
    record_matches, spec_sphere_box, spec_sphere_hit_t, sphere_ok, ray_ok, Sphere, FP_NORMAL_MAX,
};
use crate::specifications::scene::{Material, Object};

verus! {

/// One entry of a flattened hit list: a real object, or a group marker
/// whose count says how many following entries belong to the group.
#[derive(Clone, Copy, Debug)]
pub enum HitItem<M> {
    /// A real object with its precomputed bounding box.
    Object(Sphere<M>, AABB),
    /// A group marker: the number of entries that belong to the group,
    /// and a box surrounding all of them.
    GroupMarker(usize, AABB),
}

/// The bounding box stored in an entry.
pub open spec fn item_box<M>(it: HitItem<M>) -> AABB {
    match it {
        HitItem::Object(_, bb) => bb,
        HitItem::GroupMarker(_, bb) => bb,
    }
}

/// The number of entries a marker covers (zero for an object).
pub open spec fn item_count<M>(it: HitItem<M>) -> int {
    match it {
        HitItem::Object(_, _) => 0,
        HitItem::GroupMarker(n, _) => n as int,
    }
}

/// Whether one entry is internally consistent: an object's sphere lies
/// within the scene bounds and its stored box is the sphere's box; a
/// marker's box lies within the coordinate bounds the slab test supports.
pub open spec fn item_ok<M: MaterialKind>(it: HitItem<M>) -> bool {
    match it {
        HitItem::Object(sp, bb) => sphere_ok(sp.center, sp.radius as int) && bb
            == spec_sphere_box(sp.center, sp.radius as int) && M::m_ok(sp.material),
        HitItem::GroupMarker(_, bb) => vec_in(bb.a, 0x10000000000) && vec_in(bb.b, 0x10000000000),
    }
}

/// Well-formedness of a flattened list: every entry is consistent, every
/// marker's entries lie within the list, and every marker's box contains
/// the box of every entry it covers (at any nesting depth).
pub open spec fn hv_wf<M: MaterialKind>(s: Seq<HitItem<M>>) -> bool {
    &&& forall|i: int| 0 <= i < s.len() ==> item_ok(#[trigger] s[i])
    &&& forall|i: int|
        0 <= i < s.len() && (#[trigger] s[i]) is GroupMarker ==> i + item_count(s[i]) < s.len()
    &&& forall|i: int, j: int|
        #![trigger s[i], s[j]]
        0 <= i < s.len() && s[i] is GroupMarker && i < j <= i + item_count(s[i]) ==> box_contains(
            item_box(s[i]),
            item_box(s[j]),
        )
}

/// A candidate hit of the traversal: an object entry whose own bounding
/// box the ray hits over the full range, and whose sphere the ray hits
/// within the full range.
pub open spec fn candidate<M: MaterialKind>(s: Seq<HitItem<M>>, ray: Ray, tn: int, tx: int, j: int) -> bool {
    &&& 0 <= j < s.len()
    &&& s[j] is Object
    &&& spec_aabb_hit(item_box(s[j]), ray, tn, tx)
    &&& spec_sphere_hit_t(s[j]->Object_0.center, s[j]->Object_0.radius as int, ray, tn, tx)
        is Some
}

/// The hit parameter of a candidate.
pub open spec fn cand_t<M: MaterialKind>(s: Seq<HitItem<M>>, ray: Ray, tn: int, tx: int, j: int) -> int {
    spec_sphere_hit_t(s[j]->Object_0.center, s[j]->Object_0.radius as int, ray, tn, tx)->Some_0
}

/// What the traversal returns: nothing when there is no candidate, else
/// the exact record of the candidate with the smallest hit parameter,
/// ties broken by the earliest list position.
pub open spec fn is_closest_hit<M: MaterialKind>(
    s: Seq<HitItem<M>>,
    ray: Ray,
    tn: int,
    tx: int,
    res: Option<(usize, HitRecord)>,
) -> bool {
    match res {
        None => forall|j: int| !candidate(s, ray, tn, tx, j),
        Some(pr) => {
            &&& candidate(s, ray, tn, tx, pr.0 as int)
            &&& record_matches(
                s[pr.0 as int]->Object_0.center,
                s[pr.0 as int]->Object_0.radius as int,
                ray,
                tn,
                tx,
                pr.1,
            )
            &&& forall|j: int|
                #[trigger] candidate(s, ray, tn, tx, j) ==> pr.1.t as int <= cand_t(
                    s,
                    ray,
                    tn,
                    tx,
                    j,
                ) && (cand_t(s, ray, tn, tx, j) == pr.1.t as int ==> pr.0 as int <= j)
        },
    }
}

/// The closest-hit characterization picks out a single result: any two
/// results satisfying it are equal.
pub proof fn lemma_closest_hit_unique<M: MaterialKind>(
    s: Seq<HitItem<M>>,
    ray: Ray,
    tn: int,
    tx: int,
    r1: Option<(usize, HitRecord)>,
    r2: Option<(usize, HitRecord)>,
)
    requires
        is_closest_hit(s, ray, tn, tx, r1),
        is_closest_hit(s, ray, tn, tx, r2),
    ensures
        r1 == r2,
{
    match (r1, r2) {
        (Some(p1), Some(p2)) => {
            assert(candidate(s, ray, tn, tx, p1.0 as int));
            assert(candidate(s, ray, tn, tx, p2.0 as int));
            assert(p1.1.t as int == cand_t(s, ray, tn, tx, p1.0 as int));
            assert(p2.1.t as int == cand_t(s, ray, tn, tx, p2.0 as int));
            assert(p1.1.t == p2.1.t);
            assert(p1.0 == p2.0);
            assert(p1.1.hit.x == p2.1.hit.x && p1.1.hit.y == p2.1.hit.y && p1.1.hit.z
                == p2.1.hit.z);
            assert(p1.1.normal.x == p2.1.normal.x && p1.1.normal.y == p2.1.normal.y
                && p1.1.normal.z == p2.1.normal.z);
            assert(p1.1 == p2.1);
        },
        (Some(p1), None) => {
            assert(candidate(s, ray, tn, tx, p1.0 as int));
            assert(false);
        },
        (None, Some(p2)) => {
            assert(candidate(s, ray, tn, tx, p2.0 as int));
            assert(false);
        },
        (None, None) => {},
    }
}

/// A closer candidate always wins: the result can never be a candidate
/// that another candidate strictly undercuts, wherever the two stand in
/// the list.
pub proof fn lemma_closer_candidate_wins<M: MaterialKind>(
    s: Seq<HitItem<M>>,
    ray: Ray,
    tn: int,
    tx: int,
    res: Option<(usize, HitRecord)>,
    ja: int,
    jb: int,
)
    requires
        is_closest_hit(s, ray, tn, tx, res),
        candidate(s, ray, tn, tx, ja),
        candidate(s, ray, tn, tx, jb),
        cand_t(s, ray, tn, tx, ja) < cand_t(s, ray, tn, tx, jb),
    ensures
        res is Some,
        res->Some_0.1.t as int <= cand_t(s, ray, tn, tx, ja),
        res->Some_0.0 as int != jb,
{
    let pr = res->Some_0;
    assert(candidate(s, ray, tn, tx, ja));
    if pr.0 as int == jb {
        assert(pr.1.t as int == cand_t(s, ray, tn, tx, jb));
        assert(pr.1.t as int <= cand_t(s, ray, tn, tx, ja));
    }
}

/// A missed group contributes nothing: when a marker's box is missed,
/// no entry it covers can be a candidate, so skipping them all cannot
/// change the result.
pub proof fn lemma_pruned_group_contributes_nothing<M: MaterialKind>(
    s: Seq<HitItem<M>>,
    ray: Ray,
    tn: int,
    tx: int,
    i: int,
)
    requires
        hv_wf(s),
        0 <= i < s.len(),
        s[i] is GroupMarker,
        !spec_aabb_hit(item_box(s[i]), ray, tn, tx),
    ensures
        forall|j: int| i < j <= i + item_count(s[i]) ==> !candidate(s, ray, tn, tx, j),
{
    assert forall|j: int| i < j <= i + item_count(s[i]) implies !candidate(s, ray, tn, tx, j) by {
        assert(box_contains(item_box(s[i]), item_box(s[j])));
        if spec_aabb_hit(item_box(s[j]), ray, tn, tx) {
            crate::math::aabb::lemma_aabb_hit_monotone(item_box(s[i]), item_box(s[j]), ray, tn, tx);
        }
    }
}

/// The surrounding box of a flattened sub-list, walked from entry `k`
/// with accumulator `acc`: each top-level entry's box is merged in, and
/// group markers' contents are jumped over by their counts.
pub open spec fn spec_group_box_from<M>(s: Seq<HitItem<M>>, k: int, acc: AABB) -> AABB
    decreases s.len() - k,
{
    if 0 <= k < s.len() {
        let step = item_count(s[k]) + 1;
        let nk = if k + step > s.len() {
            s.len() as int
        } else {
            k + step
        };
        spec_group_box_from(s, nk, crate::math::aabb::spec_surround(acc, item_box(s[k])))
    } else {
        acc
    }
}

/// The surrounding box of a flattened sub-list: the walk from its start,
/// seeded with the degenerate box at the origin.
pub open spec fn spec_group_box<M>(s: Seq<HitItem<M>>) -> AABB {
    spec_group_box_from(s, 0, crate::math::aabb::zero_box())
}

/// Whether a box's corners lie within the coordinate bounds the slab
/// test supports.
pub open spec fn box_in_bounds(bb: AABB) -> bool {
    vec_in(bb.a, 0x10000000000) && vec_in(bb.b, 0x10000000000)
}

/// Every consistent entry's box is within the supported bounds.
proof fn lemma_item_box_bounded<M: MaterialKind>(it: HitItem<M>)
    requires
        item_ok(it),
    ensures
        box_in_bounds(item_box(it)),
{
}

/// The group-box walk yields a box that contains the accumulator and the
/// box of every entry from `k` on (covered entries through their marker's
/// box), and stays within bounds.
proof fn lemma_group_box_from_contains<M: MaterialKind>(s: Seq<HitItem<M>>, k: int, acc: AABB)
    requires
        hv_wf(s),
        0 <= k,
        box_in_bounds(acc),
    ensures
        box_in_bounds(spec_group_box_from(s, k, acc)),
        box_contains(spec_group_box_from(s, k, acc), acc),
        forall|j: int|
            k <= j < s.len() ==> box_contains(
                spec_group_box_from(s, k, acc),
                item_box(#[trigger] s[j]),
            ),
    decreases s.len() - k,
{
    if 0 <= k < s.len() {
        let bb = item_box(s[k]);
        lemma_item_box_bounded(s[k]);
        let sacc = crate::math::aabb::spec_surround(acc, bb);
        let step = item_count(s[k]) + 1;
        let nk = if k + step > s.len() {
            s.len() as int
        } else {
            k + step
        };
        assert(box_in_bounds(sacc));
        assert(box_contains(sacc, acc));
        assert(box_contains(sacc, bb));
        lemma_group_box_from_contains(s, nk, sacc);
        let result = spec_group_box_from(s, k, acc);
        assert(result == spec_group_box_from(s, nk, sacc));
        assert forall|j: int| k <= j < s.len() implies box_contains(result, item_box(s[j])) by {
            if j == k {
            } else if j < nk {
                assert(s[k] is GroupMarker);
                assert(k < j <= k + item_count(s[k]));
                assert(box_contains(bb, item_box(s[j])));
            }
        }
    }
}

/// The group box of a well-formed sub-list contains the box of every one
/// of its entries.
pub proof fn lemma_group_box_contains<M: MaterialKind>(s: Seq<HitItem<M>>)
    requires
        hv_wf(s),
    ensures
        box_in_bounds(spec_group_box(s)),
        forall|j: int|
            0 <= j < s.len() ==> box_contains(spec_group_box(s), item_box(#[trigger] s[j])),
{
    lemma_group_box_from_contains(s, 0, crate::math::aabb::zero_box());
}

/// Well-formedness survives concatenation of two well-formed lists.
proof fn lemma_wf_concat<M: MaterialKind>(a: Seq<HitItem<M>>, b: Seq<HitItem<M>>)
    requires
        hv_wf(a),
        hv_wf(b),
    ensures
        hv_wf(a + b),
{
    let c = a + b;
    assert forall|i: int| 0 <= i < c.len() implies item_ok(#[trigger] c[i]) by {
        if i < a.len() {
            assert(c[i] == a[i]);
        } else {
            assert(c[i] == b[i - a.len()]);
        }
    }
    assert forall|i: int|
        0 <= i < c.len() && (#[trigger] c[i]) is GroupMarker implies i + item_count(c[i])
        < c.len() by {
        if i < a.len() {
            assert(c[i] == a[i]);
        } else {
            assert(c[i] == b[i - a.len()]);
        }
    }
    assert forall|i: int, j: int|
        #![trigger c[i], c[j]]
        0 <= i < c.len() && c[i] is GroupMarker && i < j <= i + item_count(c[i]) implies
        box_contains(item_box(c[i]), item_box(c[j])) by {
        if i < a.len() {
            assert(c[i] == a[i]);
            assert(i + item_count(a[i]) < a.len());
            assert(c[j] == a[j]);
        } else {
            assert(c[i] == b[i - a.len()]);
            assert(c[j] == b[j - a.len()]);
            assert(box_contains(item_box(b[i - a.len()]), item_box(b[j - a.len()])));
        }
    }
}

/// A material variant that has its own list in the hit list: how to pick
/// it out of a scene material.
pub trait MaterialKind: Sized {
    /// The inner material, where the scene material is this variant.
    spec fn extract(m: Material) -> Option<Self>;

    /// Whether a value of this material lies within the supported
    /// bounds (its colour channels, where it has any, within `[0, 1]`).
    spec fn m_ok(m: Self) -> bool;

    /// A value extracted from an in-bounds scene material is in bounds.
    proof fn extract_ok(m: Material)
        requires
            crate::specifications::scene::mat_ok(m),
            Self::extract(m) is Some,
        ensures
            Self::m_ok(Self::extract(m)->Some_0),
    ;
}

impl MaterialKind for StaticColour {
    open spec fn extract(m: Material) -> Option<StaticColour> {
        match m {
            Material::StaticColour(c) => Some(c),
            _ => None,
        }
    }

    open spec fn m_ok(m: StaticColour) -> bool {
        crate::math::colour::col01(m.colour)
    }

    proof fn extract_ok(m: Material) {
    }
}

impl MaterialKind for NormalMap {
    open spec fn extract(m: Material) -> Option<NormalMap> {
        match m {
            Material::NormalMap(nm) => Some(nm),
            _ => None,
        }
    }

    open spec fn m_ok(m: NormalMap) -> bool {
        true
    }

    proof fn extract_ok(m: Material) {
    }
}

impl MaterialKind for Diffuse {
    open spec fn extract(m: Material) -> Option<Diffuse> {
        match m {
            Material::Diffuse(d) => Some(d),
            _ => None,
        }
    }

    open spec fn m_ok(m: Diffuse) -> bool {
        crate::math::colour::col01(m.colour)
    }

    proof fn extract_ok(m: Material) {
    }
}

/// The flattening of one scene object into the list for material `M`: a
/// sphere of a matching material becomes one object entry with its box; a
/// sphere of another material contributes nothing; a group becomes a
/// marker carrying its flattened children's count and surrounding box,
/// followed by the children themselves.
pub open spec fn flat_obj<M: MaterialKind>(o: Object) -> Seq<HitItem<M>>
    decreases o, 0int,
{
    match o {
        Object::Sphere(sp) => match M::extract(sp.material) {
            Some(m) => seq![
                HitItem::Object(
                    Sphere { center: sp.center, radius: sp.radius, material: m },
                    spec_sphere_box(sp.center, sp.radius as int),
                ),
            ],
            None => Seq::empty(),
        },
        Object::Group(v) => {
            let sub = flat_objects(v@, 0);
            seq![HitItem::GroupMarker(sub.len() as usize, spec_group_box(sub))] + sub
        },
    }
}

/// The flattening of the objects from index `i` on.
pub open spec fn flat_objects<M: MaterialKind>(s: Seq<Object>, i: int) -> Seq<HitItem<M>>
    decreases s, s.len() - i + 1,
{
    if 0 <= i < s.len() {
        flat_obj(s[i]) + flat_objects(s, i + 1)
    } else {
        Seq::empty()
    }
}

/// The flattening of a whole list of scene objects.
pub open spec fn flat_list<M: MaterialKind>(s: Seq<Object>) -> Seq<HitItem<M>> {
    flat_objects(s, 0)
}

/// Whether every group's flattening fits in a machine word, so that each
/// marker's stored count is exact.
pub open spec fn flat_fits_obj<M: MaterialKind>(o: Object) -> bool
    decreases o, 0int,
{
    match o {
        Object::Sphere(_) => true,
        Object::Group(v) => flat_list::<M>(v@).len() <= usize::MAX && flat_fits_list::<M>(v@),
    }
}

/// Whether every group anywhere in a list of objects flattens to a size
/// that fits in a machine word.
pub open spec fn flat_fits_list<M: MaterialKind>(s: Seq<Object>) -> bool
    decreases s, 0int,
{
    forall|j: int| 0 <= j < s.len() ==> flat_fits_obj::<M>(#[trigger] s[j])
}

/// The flattening of one in-bounds object is well-formed.
proof fn lemma_flat_obj_wf<M: MaterialKind>(o: Object)
    requires
        crate::specifications::scene::obj_ok(o),
        flat_fits_obj::<M>(o),
    ensures
        hv_wf(flat_obj::<M>(o)),
    decreases o, 0int,
{
    match o {
        Object::Sphere(sp) => {
            let l = flat_obj::<M>(o);
            assert forall|i: int| 0 <= i < l.len() implies item_ok(#[trigger] l[i]) by {
                M::extract_ok(sp.material);
            }
        },
        Object::Group(v) => {
            lemma_flat_objects_wf::<M>(v@, 0);
            let sub = flat_objects::<M>(v@, 0);
            lemma_group_box_contains(sub);
            let marker = HitItem::<M>::GroupMarker(sub.len() as usize, spec_group_box(sub));
            let l = flat_obj::<M>(o);
            assert(l == seq![marker] + sub);
            assert(item_count(marker) == sub.len());
            assert forall|i: int| 0 <= i < l.len() implies item_ok(#[trigger] l[i]) by {
                if i > 0 {
                    assert(l[i] == sub[i - 1]);
                }
            }
            assert forall|i: int|
                0 <= i < l.len() && (#[trigger] l[i]) is GroupMarker implies i + item_count(l[i])
                < l.len() by {
                if i > 0 {
                    assert(l[i] == sub[i - 1]);
                }
            }
            assert forall|i: int, j: int|
                #![trigger l[i], l[j]]
                0 <= i < l.len() && l[i] is GroupMarker && i < j <= i + item_count(l[i]) implies
                box_contains(item_box(l[i]), item_box(l[j])) by {
                if i == 0 {
                    assert(l[j] == sub[j - 1]);
                    assert(box_contains(spec_group_box(sub), item_box(sub[j - 1])));
                } else {
                    assert(l[i] == sub[i - 1]);
                    assert(l[j] == sub[j - 1]);
                    assert(box_contains(item_box(sub[i - 1]), item_box(sub[j - 1])));
                }
            }
        },
    }
}

/// The flattening of in-bounds objects from any index on is well-formed.
proof fn lemma_flat_objects_wf<M: MaterialKind>(s: Seq<Object>, i: int)
    requires
        crate::specifications::scene::objects_ok(s),
        flat_fits_list::<M>(s),
    ensures
        hv_wf(flat_objects::<M>(s, i)),
    decreases s, s.len() - i + 1,
{
    if 0 <= i < s.len() {
        lemma_flat_obj_wf::<M>(s[i]);
        lemma_flat_objects_wf::<M>(s, i + 1);
        lemma_wf_concat(flat_obj::<M>(s[i]), flat_objects::<M>(s, i + 1));
    } else {
        let l = flat_objects::<M>(s, i);
        assert(l.len() == 0);
    }
}

/// A hit list for objects of a single material type.
#[derive(Clone, Debug)]
pub struct HitVec<M> {
    /// The flattened entries to hit.
    pub items: Vec<HitItem<M>>,
}

impl<M: MaterialKind + Copy> HitVec<M> {
    /// Computes the hit of the given ray with the closest object in this
    /// list, if any: entries are walked in order, group markers whose box
    /// the ray misses skip their whole group, an object is first checked
    /// against its box and then against the exact sphere intersection with
    /// the range narrowed to the closest hit found so far.
    pub fn hit(&self, ray: Ray, t_min: i64, t_max: i64) -> (res: Option<(usize, HitRecord)>)
        requires
            hv_wf(self.items@),
            ray_ok(ray),
            -0x4000000000 <= t_min <= 0x4000000000,
            -0x4000000000 <= t_max <= 0x4000000000,
        ensures
            is_closest_hit(self.items@, ray, t_min as int, t_max as int, res),
    {
        let ghost s = self.items@;
        let ghost tn = t_min as int;
        let ghost tx = t_max as int;
        let mut closest: Option<(usize, HitRecord)> = None;
        let mut cur_max: i64 = t_max;
        let mut i: usize = 0;
        while i < self.items.len()
            invariant
                self.items@ == s,
                hv_wf(s),
                ray_ok(ray),
                -0x4000000000 <= t_min <= 0x4000000000,
                -0x4000000000 <= t_max <= 0x4000000000,
                tn == t_min as int,
                tx == t_max as int,
                0 <= i <= s.len(),
                -0x4000000000 <= cur_max <= 0x4000000000,
                closest is None ==> cur_max == t_max && (forall|j: int|
                    0 <= j < i as int ==> !candidate(s, ray, tn, tx, j)),
                closest is Some ==> ({
                    let pr = closest->Some_0;
                    &&& (pr.0 as int) < i as int
                    &&& candidate(s, ray, tn, tx, pr.0 as int)
                    &&& record_matches(
                        s[pr.0 as int]->Object_0.center,
                        s[pr.0 as int]->Object_0.radius as int,
                        ray,
                        tn,
                        tx,
                        pr.1,
                    )
                    &&& cur_max == pr.1.t
                    &&& forall|j: int|
                        0 <= j < i as int && #[trigger] candidate(s, ray, tn, tx, j)
                            ==> pr.1.t as int <= cand_t(s, ray, tn, tx, j) && (cand_t(
                            s,
                            ray,
                            tn,
                            tx,
                            j,
                        ) == pr.1.t as int ==> pr.0 as int <= j)
                }),
            decreases s.len() - i as int,
        {
            let it: HitItem<M> = self.items[i];
            match it {
                HitItem::Object(sp, bb) => {
                    if bb.hit(ray, t_min, t_max) {
                        proof {
                            if closest is Some {
                                crate::specifications::objects::sphere::lemma_sphere_hit_narrow(
                                    sp.center,
                                    sp.radius as int,
                                    ray,
                                    tn,
                                    cur_max as int,
                                    tx,
                                );
                            }
                        }
                        if let Some(record) = sp.hit(ray, t_min, cur_max) {
                            match &closest {
                                Some(old_pair) => {
                                    if record.t < old_pair.1.t {
                                        closest = Some((i, record));
                                        cur_max = record.t;
                                    }
                                },
                                None => {
                                    closest = Some((i, record));
                                    cur_max = record.t;
                                },
                            }
                        }
                    } else {
                        proof {
                            assert(!candidate(s, ray, tn, tx, i as int));
                        }
                    }
                    i = i + 1;
                },
                HitItem::GroupMarker(n, bb) => {
                    if !bb.hit(ray, t_min, t_max) {
                        proof {
                            assert forall|j: int|
                                (i as int) < j <= (i as int) + (n as int) implies !candidate(
                                s,
                                ray,
                                tn,
                                tx,
                                j,
                            ) by {
                                assert(s[i as int] is GroupMarker);
                                assert(box_contains(item_box(s[i as int]), item_box(s[j])));
                                if spec_aabb_hit(item_box(s[j]), ray, tn, tx) {
                                    crate::math::aabb::lemma_aabb_hit_monotone(
                                        item_box(s[i as int]),
                                        item_box(s[j]),
                                        ray,
                                        tn,
                                        tx,
                                    );
                                }
                            }
                        }
                        i = i + n + 1;
                    } else {
                        i = i + 1;
                    }
                },
            }
        }
        closest
    }

    /// The entry at the given position, where it is an object.
    pub fn get_object(&self, index: usize) -> (sp: Sphere<M>)
        requires
            0 <= index < self.items@.len(),
            self.items@[index as int] is Object,
        ensures
            sp == self.items@[index as int]->Object_0,
    {
        match self.items[index] {
            HitItem::Object(sp, _) => sp,
            HitItem::GroupMarker(_, _) => vstd::pervasive::unreached(),
        }
    }
}

/// Computes the surrounding box of a flattened sub-list by walking its
/// top-level entries, jumping over group contents by their counts.
fn compute_group_box<M: MaterialKind + Copy>(items: &Vec<HitItem<M>>) -> (bb: AABB)
    requires
        forall|i: int| 0 <= i < items@.len() ==> item_ok(#[trigger] items@[i]),
    ensures
        bb == spec_group_box(items@),
{
    let ghost s = items@;
    let mut acc: AABB = AABB::new(Vec3::zeroes(), Vec3::zeroes());
    let mut k: usize = 0;
    proof {
        assert(acc == crate::math::aabb::zero_box());
    }
    while k < items.len()
        invariant
            items@ == s,
            forall|i: int| 0 <= i < s.len() ==> item_ok(#[trigger] s[i]),
            0 <= k <= s.len(),
            box_in_bounds(acc),
            spec_group_box(s) == spec_group_box_from(s, k as int, acc),
        decreases s.len() - k as int,
    {
        let it: HitItem<M> = items[k];
        let (bb_k, count): (AABB, usize) = match it {
            HitItem::Object(_, bb) => (bb, 0),
            HitItem::GroupMarker(n, bb) => (bb, n),
        };
        proof {
            lemma_item_box_bounded(s[k as int]);
            assert(bb_k == item_box(s[k as int]));
            assert(count as int == item_count(s[k as int]));
        }
        let new_acc = crate::math::aabb::surround(acc, bb_k);
        if count >= items.len() - k {
            k = items.len();
        } else {
            k = k + count + 1;
        }
        acc = new_acc;
    }
    acc
}

/// Flattens one scene object, appending its entries to the three
/// per-material lists.
fn build_obj(
    o: &Object,
    l1: &mut Vec<HitItem<StaticColour>>,
    l2: &mut Vec<HitItem<NormalMap>>,
    l3: &mut Vec<HitItem<Diffuse>>,
)
    requires
        crate::specifications::scene::obj_ok(*o),
    ensures
        final(l1)@ == old(l1)@ + flat_obj::<StaticColour>(*o),
        final(l2)@ == old(l2)@ + flat_obj::<NormalMap>(*o),
        final(l3)@ == old(l3)@ + flat_obj::<Diffuse>(*o),
        flat_fits_obj::<StaticColour>(*o),
        flat_fits_obj::<NormalMap>(*o),
        flat_fits_obj::<Diffuse>(*o),
    decreases *o, 0int,
{
    match o {
        Object::Sphere(sp) => {
            match sp.material {
                Material::StaticColour(m) => {
                    let s = Sphere { center: sp.center, radius: sp.radius, material: m };
                    let bb = s.aabb();
                    l1.push(HitItem::Object(s, bb));
                },
                Material::NormalMap(m) => {
                    let s = Sphere { center: sp.center, radius: sp.radius, material: m };
                    let bb = s.aabb();
                    l2.push(HitItem::Object(s, bb));
                },
                Material::Diffuse(m) => {
                    let s = Sphere { center: sp.center, radius: sp.radius, material: m };
                    let bb = s.aabb();
                    l3.push(HitItem::Object(s, bb));
                },
            }
            proof {
                assert(l1@ =~= old(l1)@ + flat_obj::<StaticColour>(*o));
                assert(l2@ =~= old(l2)@ + flat_obj::<NormalMap>(*o));
                assert(l3@ =~= old(l3)@ + flat_obj::<Diffuse>(*o));
            }
        },
        Object::Group(v) => {
            let mut g1: Vec<HitItem<StaticColour>> = Vec::new();
            let mut g2: Vec<HitItem<NormalMap>> = Vec::new();
            let mut g3: Vec<HitItem<Diffuse>> = Vec::new();
            build_objects(v, &mut g1, &mut g2, &mut g3);
            proof {
                assert(g1@ =~= flat_list::<StaticColour>(v@));
                assert(g2@ =~= flat_list::<NormalMap>(v@));
                assert(g3@ =~= flat_list::<Diffuse>(v@));
                lemma_flat_objects_wf::<StaticColour>(v@, 0);
                lemma_flat_objects_wf::<NormalMap>(v@, 0);
                lemma_flat_objects_wf::<Diffuse>(v@, 0);
            }
            let bb1 = compute_group_box(&g1);
            let bb2 = compute_group_box(&g2);
            let bb3 = compute_group_box(&g3);
            let n1 = g1.len();
            let n2 = g2.len();
            let n3 = g3.len();
            l1.push(HitItem::GroupMarker(n1, bb1));
            l2.push(HitItem::GroupMarker(n2, bb2));
            l3.push(HitItem::GroupMarker(n3, bb3));
            let mut m1 = g1;
            let mut m2 = g2;
            let mut m3 = g3;
            l1.append(&mut m1);
            l2.append(&mut m2);
            l3.append(&mut m3);
            proof {
                assert(l1@ =~= old(l1)@ + flat_obj::<StaticColour>(*o));
                assert(l2@ =~= old(l2)@ + flat_obj::<NormalMap>(*o));
                assert(l3@ =~= old(l3)@ + flat_obj::<Diffuse>(*o));
            }
        },
    }
}

/// Flattens a list of scene objects, appending their entries to the
/// three per-material lists.
fn build_objects(
    objects: &Vec<Object>,
    l1: &mut Vec<HitItem<StaticColour>>,
    l2: &mut Vec<HitItem<NormalMap>>,
    l3: &mut Vec<HitItem<Diffuse>>,
)
    requires
        crate::specifications::scene::objects_ok(objects@),
    ensures
        final(l1)@ == old(l1)@ + flat_list::<StaticColour>(objects@),
        final(l2)@ == old(l2)@ + flat_list::<NormalMap>(objects@),
        final(l3)@ == old(l3)@ + flat_list::<Diffuse>(objects@),
        flat_fits_list::<StaticColour>(objects@),
        flat_fits_list::<NormalMap>(objects@),
        flat_fits_list::<Diffuse>(objects@),
    decreases objects@, 1int,
{
    let ghost s = objects@;
    let mut i: usize = 0;
    while i < objects.len()
        invariant
            objects@ == s,
            crate::specifications::scene::objects_ok(s),
            0 <= i <= s.len(),
            l1@ + flat_objects::<StaticColour>(s, i as int) == old(l1)@ + flat_list::<
                StaticColour,
            >(s),
            l2@ + flat_objects::<NormalMap>(s, i as int) == old(l2)@ + flat_list::<NormalMap>(s),
            l3@ + flat_objects::<Diffuse>(s, i as int) == old(l3)@ + flat_list::<Diffuse>(s),
            forall|j: int| 0 <= j < i as int ==> flat_fits_obj::<StaticColour>(#[trigger] s[j]),
            forall|j: int| 0 <= j < i as int ==> flat_fits_obj::<NormalMap>(#[trigger] s[j]),
            forall|j: int| 0 <= j < i as int ==> flat_fits_obj::<Diffuse>(#[trigger] s[j]),
        decreases s.len() - i as int,
    {
        let ghost p1 = l1@;
        let ghost p2 = l2@;
        let ghost p3 = l3@;
        let o = objects.get(i).unwrap();
        proof {
            assert(crate::specifications::scene::obj_ok(s[i as int]));
        }
        build_obj(o, l1, l2, l3);
        proof {
            assert(l1@ + flat_objects::<StaticColour>(s, i as int + 1) =~= p1 + flat_objects::<
                StaticColour,
            >(s, i as int));
            assert(l2@ + flat_objects::<NormalMap>(s, i as int + 1) =~= p2 + flat_objects::<
                NormalMap,
            >(s, i as int));
            assert(l3@ + flat_objects::<Diffuse>(s, i as int + 1) =~= p3 + flat_objects::<Diffuse>(
                s,
                i as int,
            ));
        }
        i = i + 1;
    }
    proof {
        assert(l1@ =~= l1@ + flat_objects::<StaticColour>(s, s.len() as int));
        assert(l2@ =~= l2@ + flat_objects::<NormalMap>(s, s.len() as int));
        assert(l3@ =~= l3@ + flat_objects::<Diffuse>(s, s.len() as int));
    }
}

/// The `HitIndex` sources a hit to a location within the [`HitList`].
#[derive(Clone, Copy, Debug, Eq, Hash, PartialEq, Structural)]
pub enum HitIndex {
    /// A sphere with the static-colour material, at the given position.
    SphereStaticColour(usize),
    /// A sphere with the normal-map material, at the given position.
    SphereNormalMap(usize),
    /// A sphere with the diffuse material, at the given position.
    SphereDiffuse(usize),
}

/// The rank of an index's list, in the order the lists are combined.
pub open spec fn hi_rank(hi: HitIndex) -> int {
    match hi {
        HitIndex::SphereStaticColour(_) => 0,
        HitIndex::SphereNormalMap(_) => 1,
        HitIndex::SphereDiffuse(_) => 2,
    }
}

/// The position within an index's list.
pub open spec fn hi_pos(hi: HitIndex) -> int {
    match hi {
        HitIndex::SphereStaticColour(k) => k as int,
        HitIndex::SphereNormalMap(k) => k as int,
        HitIndex::SphereDiffuse(k) => k as int,
    }
}

/// The tie-break order between two indices: earlier list first, then
/// earlier position.
pub open spec fn hi_before(a: HitIndex, b: HitIndex) -> bool {
    hi_rank(a) < hi_rank(b) || (hi_rank(a) == hi_rank(b) && hi_pos(a) <= hi_pos(b))
}

/// The list of all objects in a scene, efficiently hittable: one flat
/// array per material type.
#[derive(Clone, Debug)]
pub struct HitList {
    /// The spheres that have the static-colour material.
    pub sphere_staticcolour: HitVec<StaticColour>,
    /// The spheres that have the normal-map material.
    pub sphere_normalmap: HitVec<NormalMap>,
    /// The spheres that have the diffuse material.
    pub sphere_diffuse: HitVec<Diffuse>,
}

/// Well-formedness of a hit list: each of its three lists is
/// well-formed.
pub open spec fn hl_wf(hl: HitList) -> bool {
    &&& hv_wf(hl.sphere_staticcolour.items@)
    &&& hv_wf(hl.sphere_normalmap.items@)
    &&& hv_wf(hl.sphere_diffuse.items@)
}

/// A candidate hit of the whole hit list, identified by its index.
pub open spec fn combined_candidate(hl: HitList, ray: Ray, tn: int, tx: int, hi: HitIndex) -> bool {
    match hi {
        HitIndex::SphereStaticColour(k) => candidate(
            hl.sphere_staticcolour.items@,
            ray,
            tn,
            tx,
            k as int,
        ),
        HitIndex::SphereNormalMap(k) => candidate(hl.sphere_normalmap.items@, ray, tn, tx, k as int),
        HitIndex::SphereDiffuse(k) => candidate(hl.sphere_diffuse.items@, ray, tn, tx, k as int),
    }
}

/// The hit parameter of a combined candidate.
pub open spec fn combined_cand_t(hl: HitList, ray: Ray, tn: int, tx: int, hi: HitIndex) -> int {
    match hi {
        HitIndex::SphereStaticColour(k) => cand_t(hl.sphere_staticcolour.items@, ray, tn, tx, k as int),
        HitIndex::SphereNormalMap(k) => cand_t(hl.sphere_normalmap.items@, ray, tn, tx, k as int),
        HitIndex::SphereDiffuse(k) => cand_t(hl.sphere_diffuse.items@, ray, tn, tx, k as int),
    }
}

/// The sphere a combined index points at.
pub open spec fn indexed_sphere_center(hl: HitList, hi: HitIndex) -> Vec3 {
    match hi {
        HitIndex::SphereStaticColour(k) => hl.sphere_staticcolour.items@[k as int]->Object_0.center,
        HitIndex::SphereNormalMap(k) => hl.sphere_normalmap.items@[k as int]->Object_0.center,
        HitIndex::SphereDiffuse(k) => hl.sphere_diffuse.items@[k as int]->Object_0.center,
    }
}

/// The radius of the sphere a combined index points at.
pub open spec fn indexed_sphere_radius(hl: HitList, hi: HitIndex) -> int {
    match hi {
        HitIndex::SphereStaticColour(k) => hl.sphere_staticcolour.items@[k as int]->Object_0.radius
            as int,
        HitIndex::SphereNormalMap(k) => hl.sphere_normalmap.items@[k as int]->Object_0.radius
            as int,
        HitIndex::SphereDiffuse(k) => hl.sphere_diffuse.items@[k as int]->Object_0.radius as int,
    }
}

/// What the whole hit list's hit returns: nothing when no list has a
/// candidate, else the exact record of the candidate with the smallest
/// hit parameter, ties broken by list order and then by position.
pub open spec fn is_closest_hit_combined(
    hl: HitList,
    ray: Ray,
    tn: int,
    tx: int,
    res: Option<(HitIndex, HitRecord)>,
) -> bool {
    match res {
        None => forall|hi: HitIndex| !combined_candidate(hl, ray, tn, tx, hi),
        Some(pr) => {
            &&& combined_candidate(hl, ray, tn, tx, pr.0)
            &&& record_matches(
                indexed_sphere_center(hl, pr.0),
                indexed_sphere_radius(hl, pr.0),
                ray,
                tn,
                tx,
                pr.1,
            )
            &&& forall|hi: HitIndex|
                #[trigger] combined_candidate(hl, ray, tn, tx, hi) ==> ((pr.1.t as int)
                    < combined_cand_t(hl, ray, tn, tx, hi) || ((pr.1.t as int) == combined_cand_t(
                    hl,
                    ray,
                    tn,
                    tx,
                    hi,
                ) && hi_before(pr.0, hi)))
        },
    }
}

impl HitList {
    /// Computes the hit of the given ray with the closest object across
    /// all three lists, if any: each list's own closest hit is taken and
    /// a later list's hit replaces the running one only when strictly
    /// closer.
    pub fn hit(&self, ray: Ray, t_min: i64, t_max: i64) -> (res: Option<(HitIndex, HitRecord)>)
        requires
            hl_wf(*self),
            ray_ok(ray),
            -0x4000000000 <= t_min <= 0x4000000000,
            -0x4000000000 <= t_max <= 0x4000000000,
        ensures
            is_closest_hit_combined(*self, ray, t_min as int, t_max as int, res),
    {
        let ghost tn = t_min as int;
        let ghost tx = t_max as int;
        let r1 = self.sphere_staticcolour.hit(ray, t_min, t_max);
        let r2 = self.sphere_normalmap.hit(ray, t_min, t_max);
        let r3 = self.sphere_diffuse.hit(ray, t_min, t_max);
        let mut closest: Option<(HitIndex, HitRecord)> = match r1 {
            Some((k, rec)) => Some((HitIndex::SphereStaticColour(k), rec)),
            None => None,
        };
        if let Some((k, rec)) = r2 {
            match &closest {
                Some(pair) => {
                    if rec.t < pair.1.t {
                        closest = Some((HitIndex::SphereNormalMap(k), rec));
                    }
                },
                None => {
                    closest = Some((HitIndex::SphereNormalMap(k), rec));
                },
            }
        }
        if let Some((k, rec)) = r3 {
            match &closest {
                Some(pair) => {
                    if rec.t < pair.1.t {
                        closest = Some((HitIndex::SphereDiffuse(k), rec));
                    }
                },
                None => {
                    closest = Some((HitIndex::SphereDiffuse(k), rec));
                },
            }
        }
        proof {
            let l1 = self.sphere_staticcolour.items@;
            let l2 = self.sphere_normalmap.items@;
            let l3 = self.sphere_diffuse.items@;
            if closest is None {
                assert forall|hi: HitIndex| !combined_candidate(*self, ray, tn, tx, hi) by {
                    match hi {
                        HitIndex::SphereStaticColour(k) => {
                            assert(!candidate(l1, ray, tn, tx, k as int));
                        },
                        HitIndex::SphereNormalMap(k) => {
                            assert(!candidate(l2, ray, tn, tx, k as int));
                        },
                        HitIndex::SphereDiffuse(k) => {
                            assert(!candidate(l3, ray, tn, tx, k as int));
                        },
                    }
                }
            } else {
                let pr = closest->Some_0;
                assert forall|hi: HitIndex|
                    #[trigger] combined_candidate(*self, ray, tn, tx, hi) implies ((pr.1.t as int)
                    < combined_cand_t(*self, ray, tn, tx, hi) || ((pr.1.t as int)
                    == combined_cand_t(*self, ray, tn, tx, hi) && hi_before(pr.0, hi))) by {
                    match hi {
                        HitIndex::SphereStaticColour(k) => {
                            assert(candidate(l1, ray, tn, tx, k as int));
                            assert(r1 is Some);
                        },
                        HitIndex::SphereNormalMap(k) => {
                            assert(candidate(l2, ray, tn, tx, k as int));
                            assert(r2 is Some);
                        },
                        HitIndex::SphereDiffuse(k) => {
                            assert(candidate(l3, ray, tn, tx, k as int));
                            assert(r3 is Some);
                        },
                    }
                }
            }
        }
        closest
    }

    /// Scatters a particular hit: dispatches to the hit object's material
    /// and returns the bounced ray (if the material bounces) and the
    /// colour to apply on the way back.
    pub fn scatter(&self, ray: Ray, index: HitIndex, record: HitRecord, rng: &mut Rng) -> (r: (
        Option<Ray>,
        Colour,
    ))
        requires
            combined_index_ok(*self, index),
            vec_in(record.normal, FP_NORMAL_MAX as int),
        ensures
            match index {
                HitIndex::SphereStaticColour(k) => {
                    &&& r.0 is None
                    &&& r.1 == self.sphere_staticcolour.items@[k as int]->Object_0.material.colour
                    &&& *final(rng) == *old(rng)
                },
                HitIndex::SphereNormalMap(k) => {
                    &&& r.0 is None
                    &&& r.1.r == crate::specifications::materials::simple::spec_normal_map_ch(
                        record.normal.x as int,
                    )
                    &&& r.1.g == crate::specifications::materials::simple::spec_normal_map_ch(
                        record.normal.y as int,
                    )
                    &&& r.1.b == crate::specifications::materials::simple::spec_normal_map_ch(
                        record.normal.z as int,
                    )
                    &&& r.1.a == 65536
                    &&& *final(rng) == *old(rng)
                },
                HitIndex::SphereDiffuse(k) => {
                    &&& r.0 == Some(
                        Ray {
                            origin: record.hit,
                            direct: crate::specifications::materials::diffuse::spec_diffuse_dir(
                                record.normal,
                                old(rng).state,
                            ),
                        },
                    )
                    &&& vec_in(
                        crate::specifications::materials::diffuse::spec_diffuse_dir(
                            record.normal,
                            old(rng).state,
                        ),
                        0x80000,
                    )
                    &&& r.1 == self.sphere_diffuse.items@[k as int]->Object_0.material.colour
                    &&& final(rng).state == spec_rng_step3(old(rng).state)
                },
            },
    {
        match index {
            HitIndex::SphereStaticColour(i) => {
                let sp = self.sphere_staticcolour.get_object(i);
                sp.material.scatter(ray, record)
            },
            HitIndex::SphereNormalMap(i) => {
                let sp = self.sphere_normalmap.get_object(i);
                sp.material.scatter(ray, record)
            },
            HitIndex::SphereDiffuse(i) => {
                let sp = self.sphere_diffuse.get_object(i);
                sp.material.scatter(ray, record, rng)
            },
        }
    }

    /// The total number of entries in this list.
    pub fn len(&self) -> (r: usize)
        requires
            self.sphere_staticcolour.items@.len() + self.sphere_normalmap.items@.len()
                + self.sphere_diffuse.items@.len() <= usize::MAX,
        ensures
            r == self.sphere_staticcolour.items@.len() + self.sphere_normalmap.items@.len()
                + self.sphere_diffuse.items@.len(),
    {
        self.n_spheres()
    }

    /// The number of entries across the sphere lists.
    pub fn n_spheres(&self) -> (r: usize)
        requires
            self.sphere_staticcolour.items@.len() + self.sphere_normalmap.items@.len()
                + self.sphere_diffuse.items@.len() <= usize::MAX,
        ensures
            r == self.sphere_staticcolour.items@.len() + self.sphere_normalmap.items@.len()
                + self.sphere_diffuse.items@.len(),
    {
        self.sphere_staticcolour.items.len() + self.sphere_normalmap.items.len()
            + self.sphere_diffuse.items.len()
    }

    /// Builds the hit list of a scene: the recursive object tree is
    /// flattened once into the three per-material lists described above,
    /// which are then immutable for the whole render.
    pub fn from(objects: &Vec<Object>) -> (r: HitList)
        requires
            crate::specifications::scene::objects_ok(objects@),
        ensures
            r.sphere_staticcolour.items@ == flat_list::<StaticColour>(objects@),
            r.sphere_normalmap.items@ == flat_list::<NormalMap>(objects@),
            r.sphere_diffuse.items@ == flat_list::<Diffuse>(objects@),
            hl_wf(r),
    {
        let mut l1: Vec<HitItem<StaticColour>> = Vec::new();
        let mut l2: Vec<HitItem<NormalMap>> = Vec::new();
        let mut l3: Vec<HitItem<Diffuse>> = Vec::new();
        build_objects(objects, &mut l1, &mut l2, &mut l3);
        proof {
            assert(l1@ =~= flat_list::<StaticColour>(objects@));
            assert(l2@ =~= flat_list::<NormalMap>(objects@));
            assert(l3@ =~= flat_list::<Diffuse>(objects@));
            lemma_flat_objects_wf::<StaticColour>(objects@, 0);
            lemma_flat_objects_wf::<NormalMap>(objects@, 0);
            lemma_flat_objects_wf::<Diffuse>(objects@, 0);
        }
        HitList {
            sphere_staticcolour: HitVec { items: l1 },
            sphere_normalmap: HitVec { items: l2 },
            sphere_diffuse: HitVec { items: l3 },
        }
    }
}

/// Whether a combined index points at an object entry of its list.
pub open spec fn combined_index_ok(hl: HitList, hi: HitIndex) -> bool {
    match hi {
        HitIndex::SphereStaticColour(k) => k < hl.sphere_staticcolour.items@.len()
            && hl.sphere_staticcolour.items@[k as int] is Object,
        HitIndex::SphereNormalMap(k) => k < hl.sphere_normalmap.items@.len()
            && hl.sphere_normalmap.items@[k as int] is Object,
        HitIndex::SphereDiffuse(k) => k < hl.sphere_diffuse.items@.len()
            && hl.sphere_diffuse.items@[k as int] is Object,
    }
}

/// The combined closest-hit characterization picks out a single result.
pub proof fn lemma_combined_unique(
    hl: HitList,
    ray: Ray,
    tn: int,
    tx: int,
    r1: Option<(HitIndex, HitRecord)>,
    r2: Option<(HitIndex, HitRecord)>,
)
    requires
        is_closest_hit_combined(hl, ray, tn, tx, r1),
        is_closest_hit_combined(hl, ray, tn, tx, r2),
    ensures
        r1 == r2,
{
    match (r1, r2) {
        (Some(p1), Some(p2)) => {
            assert(combined_candidate(hl, ray, tn, tx, p1.0));
            assert(combined_candidate(hl, ray, tn, tx, p2.0));
            assert(p1.1.t as int == combined_cand_t(hl, ray, tn, tx, p1.0));
            assert(p2.1.t as int == combined_cand_t(hl, ray, tn, tx, p2.0));
            assert(p1.1.t == p2.1.t);
            assert(hi_before(p1.0, p2.0) && hi_before(p2.0, p1.0));
            assert(p1.0 == p2.0);
            assert(p1.1.hit.x == p2.1.hit.x && p1.1.hit.y == p2.1.hit.y && p1.1.hit.z
                == p2.1.hit.z);
            assert(p1.1.normal.x == p2.1.normal.x && p1.1.normal.y == p2.1.normal.y
                && p1.1.normal.z == p2.1.normal.z);
            assert(p1.1 == p2.1);
        },
        (Some(p1), None) => {
            assert(combined_candidate(hl, ray, tn, tx, p1.0));
            assert(false);
        },
        (None, Some(p2)) => {
            assert(combined_candidate(hl, ray, tn, tx, p2.0));
            assert(false);
        },
        (None, None) => {},
    }
}

/// The closest hit of the whole hit list, as a specification-level value:
/// the unique result the characterization allows.
pub open spec fn spec_closest(hl: HitList, ray: Ray, tn: int, tx: int) -> Option<
    (HitIndex, HitRecord),
> {
    choose|res: Option<(HitIndex, HitRecord)>| is_closest_hit_combined(hl, ray, tn, tx, res)
}

/// Any result satisfying the characterization is the specification-level
/// closest hit.
pub proof fn lemma_closest_is(
    hl: HitList,
    ray: Ray,
    tn: int,
    tx: int,
    r: Option<(HitIndex, HitRecord)>,
)
    requires
        is_closest_hit_combined(hl, ray, tn, tx, r),
    ensures
        spec_closest(hl, ray, tn, tx) == r,
{
    assert(exists|res: Option<(HitIndex, HitRecord)>|
        is_closest_hit_combined(hl, ray, tn, tx, res)) by {
        assert(is_closest_hit_combined(hl, ray, tn, tx, r));
    }
    let c = spec_closest(hl, ray, tn, tx);
    assert(is_closest_hit_combined(hl, ray, tn, tx, c));
    lemma_combined_unique(hl, ray, tn, tx, c, r);
}

/// Across the whole hit list, a closer candidate always wins: the result
/// can never be a candidate that another candidate strictly undercuts,
/// whichever lists the two stand in and in whatever order they were
/// inserted.
pub proof fn lemma_combined_closer_wins(
    hl: HitList,
    ray: Ray,
    tn: int,
    tx: int,
    res: Option<(HitIndex, HitRecord)>,
    a: HitIndex,
    b: HitIndex,
)
    requires
        is_closest_hit_combined(hl, ray, tn, tx, res),
        combined_candidate(hl, ray, tn, tx, a),
        combined_candidate(hl, ray, tn, tx, b),
        combined_cand_t(hl, ray, tn, tx, a) < combined_cand_t(hl, ray, tn, tx, b),
    ensures
        res is Some,
        res->Some_0.1.t as int <= combined_cand_t(hl, ray, tn, tx, a),
        res->Some_0.0 != b,
{
    let pr = res->Some_0;
    assert(combined_candidate(hl, ray, tn, tx, a));
    assert(combined_candidate(hl, ray, tn, tx, b));
    if pr.0 == b {
        assert(pr.1.t as int == combined_cand_t(hl, ray, tn, tx, b));
    }
}

} // verus!
