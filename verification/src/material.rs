//! What the materials decide once the arithmetic is done: whether a diffuse
//! direction is degenerate, how rough a metal may be and whether it absorbs a
//! ray, and whether a dielectric reflects or refracts. A double is given by
//! its bits.

use vstd::prelude::*;
use crate::double::abs;
use crate::double::is_zero;
use crate::double::less;
use crate::double::less_than;
use crate::double::magnitude;
use crate::double::ONE;
use crate::double::ZERO;

verus! {

/// The bits of the double nearest to 0.00000001: a direction is degenerate
/// where each of its components is closer to zero than this.
pub const NEAR_ZERO: u64 = 0x3E45_798E_E230_8C3A;

/// Every component is closer to zero than `NEAR_ZERO`.
pub open spec fn is_near_zero(x: u64, y: u64, z: u64) -> bool {
    &&& less_than(magnitude(x), NEAR_ZERO)
    &&& less_than(magnitude(y), NEAR_ZERO)
    &&& less_than(magnitude(z), NEAR_ZERO)
}

/// The fuzz of a metal: the fuzz asked for where that is below one, else one.
pub open spec fn clamped_fuzz(fuzz: u64) -> u64 {
    if less_than(fuzz, ONE) {
        fuzz
    } else {
        ONE
    }
}

/// A metal absorbs the ray unless the scattered direction points out of the
/// surface: unless its dot product with the normal is above zero.
pub open spec fn is_absorbed(facing: u64) -> bool {
    !less_than(ZERO, facing)
}

/// A dielectric reflects where the relative index times the sine of the angle
/// of incidence is above one, so that refraction has no solution, or where its
/// reflectance is above the number drawn for the ray; else it refracts.
pub open spec fn is_reflected(index_sine: u64, reflectance: u64, drawn: u64) -> bool {
    less_than(ONE, index_sine) || less_than(drawn, reflectance)
}

/// A dielectric can have this index of refraction: it is above zero.
pub fn valid_index(index: u64) -> (valid: bool)
    ensures
        valid == less_than(ZERO, index),
{
    less(ZERO, index)
}

/// Whether a scatter direction is too close to zero to be used.
pub fn near_zero(x: u64, y: u64, z: u64) -> (degenerate: bool)
    ensures
        degenerate == is_near_zero(x, y, z),
{
    less(abs(x), NEAR_ZERO) && less(abs(y), NEAR_ZERO) && less(abs(z), NEAR_ZERO)
}

/// The fuzz that a metal is made with.
pub fn clamp_fuzz(fuzz: u64) -> (clamped: u64)
    ensures
        clamped == clamped_fuzz(fuzz),
{
    if less(fuzz, ONE) {
        fuzz
    } else {
        ONE
    }
}

/// Whether a metal absorbs the ray, by the dot product of the scattered
/// direction with the normal.
pub fn absorbs(facing: u64) -> (absorbed: bool)
    ensures
        absorbed == is_absorbed(facing),
{
    !less(ZERO, facing)
}

/// Whether a dielectric reflects the ray.
pub fn reflects(index_sine: u64, reflectance: u64, drawn: u64) -> (reflected: bool)
    ensures
        reflected == is_reflected(index_sine, reflectance, drawn),
{
    less(ONE, index_sine) || less(drawn, reflectance)
}

/// A direction that is exactly zero is degenerate.
pub proof fn lemma_zero_is_near_zero(x: u64, y: u64, z: u64)
    requires
        is_zero(x),
        is_zero(y),
        is_zero(z),
    ensures
        is_near_zero(x, y, z),
{
}

/// The fuzz of a metal is never above one, and a fuzz that is not is kept.
pub proof fn lemma_fuzz_is_clamped(fuzz: u64)
    ensures
        !less_than(ONE, clamped_fuzz(fuzz)),
        less_than(fuzz, ONE) ==> clamped_fuzz(fuzz) == fuzz,
{
}

/// Under total internal reflection the ray is reflected, whatever the
/// reflectance and whatever number is drawn.
pub proof fn lemma_total_internal_reflection(index_sine: u64, reflectance: u64, drawn: u64)
    requires
        less_than(ONE, index_sine),
    ensures
        is_reflected(index_sine, reflectance, drawn),
{
}

} // verus!
