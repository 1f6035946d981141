//! Axis-aligned bounding boxes and their fold identity.

use vstd::prelude::*;
use crate::vec3::Vec3;

verus! {

/// An axis-aligned bounding box in 3D.
#[derive(Clone, Copy, Debug, PartialEq, Eq, Structural)]
pub struct Aabb {
    pub min: Vec3,
    pub max: Vec3,
}

pub open spec fn min2(a: int, b: int) -> int {
    if a < b {
        a
    } else {
        b
    }
}

pub open spec fn max2(a: int, b: int) -> int {
    if a > b {
        a
    } else {
        b
    }
}

impl Aabb {
    /// The fold identity: `min` at the largest representable
    /// coordinate and `max` at the smallest, so that it absorbs into
    /// any box it is merged with. It stands in for the infinities of
    /// a box over unbounded scalars.
    pub open spec fn spec_empty() -> Aabb {
        Aabb {
            min: Vec3 { x: i64::MAX, y: i64::MAX, z: i64::MAX },
            max: Vec3 { x: i64::MIN, y: i64::MIN, z: i64::MIN },
        }
    }

    /// Grows a box to include a point.
    pub open spec fn spec_extend(self, p: Vec3) -> Aabb {
        Aabb {
            min: Vec3 {
                x: min2(self.min.x as int, p.x as int) as i64,
                y: min2(self.min.y as int, p.y as int) as i64,
                z: min2(self.min.z as int, p.z as int) as i64,
            },
            max: Vec3 {
                x: max2(self.max.x as int, p.x as int) as i64,
                y: max2(self.max.y as int, p.y as int) as i64,
                z: max2(self.max.z as int, p.z as int) as i64,
            },
        }
    }

    /// The smallest box enclosing both arguments.
    pub open spec fn spec_union2(self, o: Aabb) -> Aabb {
        Aabb {
            min: Vec3 {
                x: min2(self.min.x as int, o.min.x as int) as i64,
                y: min2(self.min.y as int, o.min.y as int) as i64,
                z: min2(self.min.z as int, o.min.z as int) as i64,
            },
            max: Vec3 {
                x: max2(self.max.x as int, o.max.x as int) as i64,
                y: max2(self.max.y as int, o.max.y as int) as i64,
                z: max2(self.max.z as int, o.max.z as int) as i64,
            },
        }
    }

    /// The fold of [`Aabb::spec_extend`] over a point sequence.
    pub open spec fn spec_from_points(points: Seq<Vec3>) -> Aabb
        decreases points.len(),
    {
        if points.len() == 0 {
            Aabb::spec_empty()
        } else {
            Aabb::spec_from_points(points.drop_last()).spec_extend(points.last())
        }
    }

    /// The fold of [`Aabb::spec_union2`] over a box sequence.
    pub open spec fn spec_union_seq(boxes: Seq<Aabb>) -> Aabb
        decreases boxes.len(),
    {
        if boxes.len() == 0 {
            Aabb::spec_empty()
        } else {
            Aabb::spec_union_seq(boxes.drop_last()).spec_union2(boxes.last())
        }
    }

    /// Whether the point lies in the closed box.
    pub open spec fn spec_contains(self, p: Vec3) -> bool {
        &&& self.min.x <= p.x <= self.max.x
        &&& self.min.y <= p.y <= self.max.y
        &&& self.min.z <= p.z <= self.max.z
    }

    /// Whether two closed boxes share at least one point.
    pub open spec fn spec_overlaps(self, o: Aabb) -> bool {
        &&& self.min.x <= o.max.x && o.min.x <= self.max.x
        &&& self.min.y <= o.max.y && o.min.y <= self.max.y
        &&& self.min.z <= o.max.z && o.min.z <= self.max.z
    }

    /// Whether two closed boxes share at least one point.
    pub fn overlaps(&self, o: &Aabb) -> (r: bool)
        ensures
            r == self.spec_overlaps(*o),
    {
        self.min.x <= o.max.x && o.min.x <= self.max.x && self.min.y <= o.max.y && o.min.y
            <= self.max.y && self.min.z <= o.max.z && o.min.z <= self.max.z
    }

    /// The identity box of the empty fold.
    pub fn empty() -> (r: Aabb)
        ensures
            r == Aabb::spec_empty(),
    {
        Aabb {
            min: Vec3 { x: i64::MAX, y: i64::MAX, z: i64::MAX },
            max: Vec3 { x: i64::MIN, y: i64::MIN, z: i64::MIN },
        }
    }

    /// Grows the box to include `p`.
    pub fn extend(self, p: Vec3) -> (r: Aabb)
        ensures
            r == self.spec_extend(p),
    {
        Aabb {
            min: Vec3 {
                x: if p.x < self.min.x { p.x } else { self.min.x },
                y: if p.y < self.min.y { p.y } else { self.min.y },
                z: if p.z < self.min.z { p.z } else { self.min.z },
            },
            max: Vec3 {
                x: if p.x > self.max.x { p.x } else { self.max.x },
                y: if p.y > self.max.y { p.y } else { self.max.y },
                z: if p.z > self.max.z { p.z } else { self.max.z },
            },
        }
    }

    /// The smallest box that encloses all of the given points, or the
    /// absorbing identity if there are none.
    pub fn from_points(points: &Vec<Vec3>) -> (r: Aabb)
        ensures
            r == Aabb::spec_from_points(points@),
    {
        let mut acc = Aabb::empty();
        let mut i: usize = 0;
        while i < points.len()
            invariant
                i <= points.len(),
                acc == Aabb::spec_from_points(points@.take(i as int)),
            decreases points.len() - i,
        {
            acc = acc.extend(points[i]);
            proof {
                assert(points@.take(i + 1int).drop_last() == points@.take(i as int));
                assert(points@.take(i + 1int).last() == points@[i as int]);
            }
            i = i + 1;
        }
        proof {
            assert(points@.take(points@.len() as int) == points@);
        }
        acc
    }

    /// The smallest box that encloses all of the given boxes, or the
    /// absorbing identity if there are none.
    pub fn union(boxes: &Vec<Aabb>) -> (r: Aabb)
        ensures
            r == Aabb::spec_union_seq(boxes@),
    {
        let mut acc = Aabb::empty();
        let mut i: usize = 0;
        while i < boxes.len()
            invariant
                i <= boxes.len(),
                acc == Aabb::spec_union_seq(boxes@.take(i as int)),
            decreases boxes.len() - i,
        {
            let b = boxes[i];
            acc = Aabb {
                min: Vec3 {
                    x: if b.min.x < acc.min.x { b.min.x } else { acc.min.x },
                    y: if b.min.y < acc.min.y { b.min.y } else { acc.min.y },
                    z: if b.min.z < acc.min.z { b.min.z } else { acc.min.z },
                },
                max: Vec3 {
                    x: if b.max.x > acc.max.x { b.max.x } else { acc.max.x },
                    y: if b.max.y > acc.max.y { b.max.y } else { acc.max.y },
                    z: if b.max.z > acc.max.z { b.max.z } else { acc.max.z },
                },
            };
            proof {
                assert(boxes@.take(i + 1int).drop_last() == boxes@.take(i as int));
                assert(boxes@.take(i + 1int).last() == boxes@[i as int]);
            }
            i = i + 1;
        }
        proof {
            assert(boxes@.take(boxes@.len() as int) == boxes@);
        }
        acc
    }
}

/// The empty fold yields the identity box, and merging the identity
/// with any box gives back that box unchanged: the identity absorbs
/// under union, so a fold over zero inputs stays well-defined.
pub proof fn lemma_empty_box_is_union_identity(b: Aabb)
    ensures
        Aabb::spec_from_points(Seq::<Vec3>::empty()) == Aabb::spec_empty(),
        Aabb::spec_union_seq(Seq::<Aabb>::empty()) == Aabb::spec_empty(),
        Aabb::spec_empty().spec_union2(b) == b,
        b.spec_union2(Aabb::spec_empty()) == b,
{
}

} // verus!
