//! What the scene of many small spheres decides for each place of its grid,
//! once the random numbers are drawn: whether the place is taken and what the
//! sphere is made of. A double is given by its bits.

use vstd::prelude::*;
use crate::double::less;
use crate::double::less_than;

verus! {

/// The bits of the double nearest to 0.8: below it the sphere is diffuse.
pub const DIFFUSE_BELOW: u64 = 0x3FE9_9999_9999_999A;

/// The bits of the double nearest to 0.95: below it, and not diffuse, the
/// sphere is metal.
pub const METAL_BELOW: u64 = 0x3FEE_6666_6666_6666;

/// The bits of the double nearest to 0.9: a small sphere is left out unless
/// its center is further than this from the center of the large metal sphere.
pub const CLEARANCE: u64 = 0x3FEC_CCCC_CCCC_CCCD;

/// What a sphere is made of.
#[derive(Clone, Copy, Debug, PartialEq, Eq, Structural)]
pub enum MaterialKind {
    Lambertian,
    Metal,
    Dielectric,
}

/// The material for the number drawn for a place: diffuse below 0.8, metal
/// from there up to 0.95, glass else.
pub open spec fn material_of(drawn: u64) -> MaterialKind {
    if less_than(drawn, DIFFUSE_BELOW) {
        MaterialKind::Lambertian
    } else if less_than(drawn, METAL_BELOW) {
        MaterialKind::Metal
    } else {
        MaterialKind::Dielectric
    }
}

/// The material of the sphere of a place, by the number drawn for it.
pub fn choose_material(drawn: u64) -> (kind: MaterialKind)
    ensures
        kind == material_of(drawn),
{
    if less(drawn, DIFFUSE_BELOW) {
        MaterialKind::Lambertian
    } else if less(drawn, METAL_BELOW) {
        MaterialKind::Metal
    } else {
        MaterialKind::Dielectric
    }
}

/// Whether a place gets a sphere: its distance from the large metal sphere
/// is above the clearance.
pub fn is_clear(distance: u64) -> (clear: bool)
    ensures
        clear == less_than(CLEARANCE, distance),
{
    less(CLEARANCE, distance)
}

} // verus!
