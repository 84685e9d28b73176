//! What the intersection of a ray with a sphere decides once the arithmetic is
//! done: which root of the quadratic is the hit, and which side of the surface
//! the ray meets. A double is given by its bits.

use vstd::prelude::*;
use crate::double::at_most;
use crate::double::is_nan;
use crate::double::less;
use crate::double::less_than;
use crate::double::ZERO;

verus! {

/// The parameter lies in the window, its ends included: it is neither less
/// than `t_min` nor greater than `t_max`.
pub open spec fn inside(t: u64, t_min: u64, t_max: u64) -> bool {
    !less_than(t, t_min) && !less_than(t_max, t)
}

/// The root at which the ray hits: none where the discriminant is below
/// zero; else the near root where it lies in the window; else the far root
/// where that one does; else none.
pub open spec fn chosen_root(
    discriminant: u64,
    near: u64,
    far: u64,
    t_min: u64,
    t_max: u64,
) -> Option<u64> {
    if less_than(discriminant, ZERO) {
        None
    } else if inside(near, t_min, t_max) {
        Some(near)
    } else if inside(far, t_min, t_max) {
        Some(far)
    } else {
        None
    }
}

fn within(t: u64, t_min: u64, t_max: u64) -> (r: bool)
    ensures
        r == inside(t, t_min, t_max),
{
    !less(t, t_min) && !less(t_max, t)
}

/// Chooses the root at which the ray hits the sphere, if it hits.
pub fn select_root(discriminant: u64, near: u64, far: u64, t_min: u64, t_max: u64) -> (root:
    Option<u64>)
    ensures
        root == chosen_root(discriminant, near, far, t_min, t_max),
{
    if less(discriminant, ZERO) {
        None
    } else if within(near, t_min, t_max) {
        Some(near)
    } else if within(far, t_min, t_max) {
        Some(far)
    } else {
        None
    }
}

/// A sphere can have this radius: it is above zero.
pub fn valid_radius(radius: u64) -> (valid: bool)
    ensures
        valid == less_than(ZERO, radius),
{
    less(ZERO, radius)
}

/// The ray meets the surface from outside: the dot product of its direction
/// with the outward normal is below zero.
pub fn front_face(dot: u64) -> (front: bool)
    ensures
        front == less_than(dot, ZERO),
{
    less(dot, ZERO)
}

/// A chosen root is one of the two roots and lies in the window; where it
/// and the ends of the window are numbers, it is at least `t_min` and at most
/// `t_max`. Where the near root is not the greater of the two, no root in the
/// window is less than the chosen one. No root is chosen only where the
/// discriminant is below zero or neither root lies in the window.
pub proof fn lemma_chosen_root_is_closest(
    discriminant: u64,
    near: u64,
    far: u64,
    t_min: u64,
    t_max: u64,
)
    ensures
        match chosen_root(discriminant, near, far, t_min, t_max) {
            Some(t) => {
                &&& t == near || t == far
                &&& inside(t, t_min, t_max)
                &&& !is_nan(t) && !is_nan(t_min) ==> at_most(t_min, t)
                &&& !is_nan(t) && !is_nan(t_max) ==> at_most(t, t_max)
                &&& !less_than(far, near) ==> {
                    &&& inside(near, t_min, t_max) ==> !less_than(near, t)
                    &&& inside(far, t_min, t_max) ==> !less_than(far, t)
                }
            },
            None => less_than(discriminant, ZERO) || (!inside(near, t_min, t_max) && !inside(
                far,
                t_min,
                t_max,
            )),
        },
{
}

} // verus!
