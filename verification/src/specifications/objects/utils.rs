//! Utilities shared across objects.

use vstd::prelude::*;

use crate::math::aabb::{box_contains, spec_surround, surround, zero_box, AABB};
use crate::math::vec3::vec_in;

verus! {

/// The fold of [`spec_surround`] over the boxes from index `i` on,
/// starting from the accumulator `acc`.
pub open spec fn spec_surround_fold(s: Seq<AABB>, i: int, acc: AABB) -> AABB
    decreases s.len() - i,
{
    if 0 <= i < s.len() {
        spec_surround_fold(s, i + 1, spec_surround(acc, s[i]))
    } else {
        acc
    }
}

/// Computes a bounding box that fits every box in the given list
/// exactly: the fold of [`surround`] over the list, seeded with its
/// first element. An empty list yields the degenerate box at the
/// origin.
pub fn surround_list(boxes: &Vec<AABB>) -> (r: AABB)
    requires
        forall|i: int|
            0 <= i < boxes@.len() ==> vec_in(#[trigger] boxes@[i].a, 0x1000000000000000) && vec_in(
                boxes@[i].b,
                0x1000000000000000,
            ),
    ensures
        r == (if boxes@.len() == 0 {
            zero_box()
        } else {
            spec_surround_fold(boxes@, 1, boxes@[0])
        }),
        forall|i: int| 0 <= i < boxes@.len() ==> box_contains(r, #[trigger] boxes@[i]),
        vec_in(r.a, 0x1000000000000000),
        vec_in(r.b, 0x1000000000000000),
{
    if boxes.len() == 0 {
        let r = AABB::new(crate::math::vec3::Vec3::zeroes(), crate::math::vec3::Vec3::zeroes());
        proof {
            assert(r == zero_box());
        }
        return r;
    }
    let mut acc: AABB = *boxes.get(0).unwrap();
    proof {
        assert(box_contains(acc, boxes@[0]));
    }
    let mut i: usize = 1;
    while i < boxes.len()
        invariant
            1 <= i <= boxes@.len(),
            forall|j: int|
                0 <= j < boxes@.len() ==> vec_in(#[trigger] boxes@[j].a, 0x1000000000000000)
                    && vec_in(boxes@[j].b, 0x1000000000000000),
            forall|j: int| 0 <= j < i as int ==> box_contains(acc, #[trigger] boxes@[j]),
            vec_in(acc.a, 0x1000000000000000),
            vec_in(acc.b, 0x1000000000000000),
            spec_surround_fold(boxes@, 1, boxes@[0]) == spec_surround_fold(boxes@, i as int, acc),
        decreases boxes@.len() - i as int,
    {
        let next: AABB = *boxes.get(i).unwrap();
        acc = surround(acc, next);
        i = i + 1;
    }
    acc
}

} // verus!
