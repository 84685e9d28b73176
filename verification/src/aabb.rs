//! Axis-aligned bounding boxes, the box around a list of boxes, and what the
//! slab test decides. A coordinate is a double, given by its bits.
//!
//! Enclosing boxes only compares coordinates. The slab test of a ray against
//! a box divides, which is arithmetic on doubles; what it decides from the
//! quotients is `slab_hit`.

use vstd::prelude::*;
use crate::double::at_most;
use crate::double::greater_of;
use crate::double::is_nan;
use crate::double::less_or_equal;
use crate::double::lemma_lesser_and_greater_bound;
use crate::double::lemma_lesser_and_greater_choose;
use crate::double::lemma_lesser_and_greater_reach;
use crate::double::lesser_of;
use crate::double::max;
use crate::double::min;

verus! {

/// A corner of a box, or any point of space: the bits of its three
/// coordinates.
#[derive(Clone, Copy, Debug, PartialEq, Eq, Structural)]
pub struct Point3 {
    pub x: u64,
    pub y: u64,
    pub z: u64,
}

/// The box of the points that lie between `min` and `max` on every axis.
#[allow(clippy::upper_case_acronyms)]
#[derive(Clone, Copy, Debug, PartialEq, Eq, Structural)]
pub struct AABB {
    pub min: Point3,
    pub max: Point3,
}

/// The smallest box that holds both boxes: on each axis the lesser of the two
/// lower bounds and the greater of the two upper bounds.
pub open spec fn enclose(a: AABB, b: AABB) -> AABB {
    AABB {
        min: Point3 {
            x: lesser_of(a.min.x, b.min.x),
            y: lesser_of(a.min.y, b.min.y),
            z: lesser_of(a.min.z, b.min.z),
        },
        max: Point3 {
            x: greater_of(a.max.x, b.max.x),
            y: greater_of(a.max.y, b.max.y),
            z: greater_of(a.max.z, b.max.z),
        },
    }
}

/// The box around a list of boxes, taken in from the first on; of an empty
/// list, an arbitrary box.
pub open spec fn enclose_all(boxes: Seq<AABB>) -> AABB
    decreases boxes.len(),
{
    if boxes.len() <= 1 {
        boxes[0]
    } else {
        enclose(enclose_all(boxes.drop_last()), boxes.last())
    }
}

/// The boxes that a list of optional boxes holds, where it holds one in every
/// place.
pub open spec fn unwrapped(boxes: Seq<Option<AABB>>) -> Seq<AABB> {
    Seq::new(boxes.len(), |i: int| boxes[i]->0)
}

impl Point3 {
    /// No coordinate is a NaN.
    pub open spec fn is_number(self) -> bool {
        !is_nan(self.x) && !is_nan(self.y) && !is_nan(self.z)
    }
}

impl AABB {
    /// No coordinate of either corner is a NaN.
    pub open spec fn is_number(self) -> bool {
        self.min.is_number() && self.max.is_number()
    }

    /// The point lies in the box, its faces included.
    pub open spec fn contains(self, p: Point3) -> bool {
        &&& at_most(self.min.x, p.x) && at_most(p.x, self.max.x)
        &&& at_most(self.min.y, p.y) && at_most(p.y, self.max.y)
        &&& at_most(self.min.z, p.z) && at_most(p.z, self.max.z)
    }

    /// The box reaches at least as far as `other` on every axis, both ways.
    pub open spec fn bounds(self, other: AABB) -> bool {
        &&& at_most(self.min.x, other.min.x) && at_most(other.max.x, self.max.x)
        &&& at_most(self.min.y, other.min.y) && at_most(other.max.y, self.max.y)
        &&& at_most(self.min.z, other.min.z) && at_most(other.max.z, self.max.z)
    }

    pub fn new(min: Point3, max: Point3) -> (b: AABB)
        ensures
            b == (AABB { min, max }),
    {
        AABB { min, max }
    }

    /// The smallest box that holds both boxes.
    pub fn surrounding_box(box0: AABB, box1: AABB) -> (both: AABB)
        ensures
            both == enclose(box0, box1),
    {
        let small = Point3 {
            x: min(box0.min.x, box1.min.x),
            y: min(box0.min.y, box1.min.y),
            z: min(box0.min.z, box1.min.z),
        };
        let large = Point3 {
            x: max(box0.max.x, box1.max.x),
            y: max(box0.max.y, box1.max.y),
            z: max(box0.max.z, box1.max.z),
        };
        AABB::new(small, large)
    }
}

/// The box around all the boxes of a list: none where the list is empty or
/// one of its members has no box.
pub fn bounding_box(boxes: &Vec<Option<AABB>>) -> (around: Option<AABB>)
    ensures
        around is Some <==> boxes.len() > 0 && forall|i: int|
            0 <= i < boxes.len() ==> boxes[i] is Some,
        around is Some ==> around->0 == enclose_all(unwrapped(boxes@)),
{
    if boxes.len() == 0 {
        return None;
    }
    let mut output_box: AABB = match boxes[0] {
        Some(first) => first,
        None => {
            return None;
        },
    };
    let ghost all = unwrapped(boxes@);
    assert(all.take(1).len() == 1);
    let mut k: usize = 1;
    while k < boxes.len()
        invariant
            1 <= k <= boxes.len(),
            all == unwrapped(boxes@),
            forall|i: int| 0 <= i < k ==> boxes[i] is Some,
            output_box == enclose_all(all.take(k as int)),
        decreases boxes.len() - k,
    {
        match boxes[k] {
            Some(next) => {
                proof {
                    let seen = all.take(k + 1);
                    assert(seen.drop_last() =~= all.take(k as int));
                    assert(seen.last() == next);
                }
                output_box = AABB::surrounding_box(output_box, next);
            },
            None => {
                return None;
            },
        }
        k = k + 1;
    }
    assert(all.take(k as int) =~= all);
    Some(output_box)
}

/// The enclosing box holds every point of either box.
pub proof fn lemma_enclose_holds_both(a: AABB, b: AABB, p: Point3)
    ensures
        a.contains(p) || b.contains(p) ==> enclose(a, b).contains(p),
{
    lemma_lesser_and_greater_reach(a.min.x, b.min.x, p.x);
    lemma_lesser_and_greater_reach(a.min.y, b.min.y, p.y);
    lemma_lesser_and_greater_reach(a.min.z, b.min.z, p.z);
    lemma_lesser_and_greater_reach(a.max.x, b.max.x, p.x);
    lemma_lesser_and_greater_reach(a.max.y, b.max.y, p.y);
    lemma_lesser_and_greater_reach(a.max.z, b.max.z, p.z);
}

/// The enclosing box of two boxes of numbers is a box of numbers that bounds
/// both, and no box that bounds both is smaller.
pub proof fn lemma_enclose_is_least(a: AABB, b: AABB, c: AABB)
    requires
        a.is_number(),
        b.is_number(),
    ensures
        enclose(a, b).is_number(),
        enclose(a, b).bounds(a),
        enclose(a, b).bounds(b),
        c.bounds(a) && c.bounds(b) ==> c.bounds(enclose(a, b)),
{
    lemma_lesser_and_greater_choose(a.min.x, b.min.x);
    lemma_lesser_and_greater_choose(a.min.y, b.min.y);
    lemma_lesser_and_greater_choose(a.min.z, b.min.z);
    lemma_lesser_and_greater_choose(a.max.x, b.max.x);
    lemma_lesser_and_greater_choose(a.max.y, b.max.y);
    lemma_lesser_and_greater_choose(a.max.z, b.max.z);
    lemma_lesser_and_greater_bound(a.min.x, b.min.x);
    lemma_lesser_and_greater_bound(a.min.y, b.min.y);
    lemma_lesser_and_greater_bound(a.min.z, b.min.z);
    lemma_lesser_and_greater_bound(a.max.x, b.max.x);
    lemma_lesser_and_greater_bound(a.max.y, b.max.y);
    lemma_lesser_and_greater_bound(a.max.z, b.max.z);
}

/// A box enclosed with itself is that box.
pub proof fn lemma_enclose_idempotent(x: AABB)
    ensures
        enclose(x, x) == x,
{
    lemma_lesser_and_greater_choose(x.min.x, x.min.x);
    lemma_lesser_and_greater_choose(x.min.y, x.min.y);
    lemma_lesser_and_greater_choose(x.min.z, x.min.z);
    lemma_lesser_and_greater_choose(x.max.x, x.max.x);
    lemma_lesser_and_greater_choose(x.max.y, x.max.y);
    lemma_lesser_and_greater_choose(x.max.z, x.max.z);
}

/// The box around a list holds every point of every box of the list.
pub proof fn lemma_enclose_all_holds_each(boxes: Seq<AABB>, i: int, p: Point3)
    requires
        0 <= i < boxes.len(),
        boxes[i].contains(p),
    ensures
        enclose_all(boxes).contains(p),
    decreases boxes.len(),
{
    if boxes.len() > 1 {
        if i < boxes.len() - 1 {
            lemma_enclose_all_holds_each(boxes.drop_last(), i, p);
        }
        lemma_enclose_holds_both(enclose_all(boxes.drop_last()), boxes.last(), p);
    }
}

/// No box that bounds every box of a list of boxes of numbers is smaller than
/// the box around the list: the order of the list does not matter to what the
/// box around it holds.
pub proof fn lemma_enclose_all_is_least(boxes: Seq<AABB>, c: AABB)
    requires
        boxes.len() > 0,
        forall|i: int| 0 <= i < boxes.len() ==> (#[trigger] boxes[i]).is_number(),
        forall|i: int| 0 <= i < boxes.len() ==> c.bounds(#[trigger] boxes[i]),
    ensures
        enclose_all(boxes).is_number(),
        c.bounds(enclose_all(boxes)),
    decreases boxes.len(),
{
    if boxes.len() > 1 {
        let front = boxes.drop_last();
        assert forall|i: int| 0 <= i < front.len() implies (#[trigger] front[i]).is_number()
            && c.bounds(front[i]) by {
            assert(front[i] == boxes[i]);
        }
        lemma_enclose_all_is_least(front, c);
        assert(c.bounds(boxes.last()));
        lemma_enclose_is_least(enclose_all(front), boxes.last(), c);
    } else {
        assert(c.bounds(boxes[0]));
    }
}

/// The window of ray parameters, from `window.0` to `window.1`, cut down to
/// the part where the ray lies between the two faces of one axis, which it
/// crosses at the parameters `slab.0` and `slab.1`, in either order.
pub open spec fn shrunk(window: (u64, u64), slab: (u64, u64)) -> (u64, u64) {
    (
        greater_of(lesser_of(slab.0, slab.1), window.0),
        lesser_of(greater_of(slab.0, slab.1), window.1),
    )
}

/// The window is empty or a single point: it ends at or before its start.
pub open spec fn inverted(window: (u64, u64)) -> bool {
    at_most(window.1, window.0)
}

/// The ray passes through the box within the window: cut down by the slabs of
/// the three axes in turn, the window is never inverted.
pub open spec fn passes(window: (u64, u64), x: (u64, u64), y: (u64, u64), z: (u64, u64)) -> bool {
    &&& !inverted(shrunk(window, x))
    &&& !inverted(shrunk(shrunk(window, x), y))
    &&& !inverted(shrunk(shrunk(shrunk(window, x), y), z))
}

fn shrink(window: (u64, u64), slab: (u64, u64)) -> (cut: (u64, u64))
    ensures
        cut == shrunk(window, slab),
{
    let t0 = min(slab.0, slab.1);
    let t1 = max(slab.0, slab.1);
    (max(t0, window.0), min(t1, window.1))
}

/// The slab test, from the parameters at which the ray crosses the two faces
/// of each axis: the doubles `(min[a] - origin[a]) / direction[a]` and
/// `(max[a] - origin[a]) / direction[a]`.
pub fn slab_hit(t_min: u64, t_max: u64, x: (u64, u64), y: (u64, u64), z: (u64, u64)) -> (hit:
    bool)
    ensures
        hit == passes((t_min, t_max), x, y, z),
{
    let after_x = shrink((t_min, t_max), x);
    if less_or_equal(after_x.1, after_x.0) {
        return false;
    }
    let after_y = shrink(after_x, y);
    if less_or_equal(after_y.1, after_y.0) {
        return false;
    }
    let after_z = shrink(after_y, z);
    !less_or_equal(after_z.1, after_z.0)
}

} // verus!
