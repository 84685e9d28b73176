//! The verified core of a path tracer for scenes of spheres under a sky.
//!
//! The tracer's arithmetic on rays and colors is floating point and belongs to
//! the program around this library. What the library holds is everything
//! that the tracer decides: over integers, over the order of doubles and
//! over structure, each part with its contract. Nothing here computes with a
//! double; where a decision reads one, it takes its bits.
//!
//! - [`double`]: the bit patterns of doubles and how they compare;
//! - [`sphere`]: which root of the quadratic is the hit, and which face;
//! - [`hittable_list`]: the world, and the closest hit among its members;
//! - [`aabb`]: bounding boxes, the box around a list of boxes, and the slab
//!   test;
//! - [`material`]: what the materials decide once their arithmetic is done;
//! - [`sampling`]: which random samples are kept;
//! - [`scenes`]: which places of the scene's grid get a sphere, and of what
//!   material;
//! - [`integrator`]: when a light path asks the world again and what light it
//!   ends in;
//! - [`tone`]: the level of a channel, one of 256, from the bits of its
//!   value;
//! - [`dispatch`]: the bands of pixel rows that the workers render, and the
//!   order of the pixels in a band and in the picture;
//! - [`image`]: the picture of 8-bit pixels and its assembly from the bands;
//! - [`ppm`]: the picture as the bytes of a plain-text pixmap.

pub mod aabb;
pub mod dispatch;
pub mod double;
pub mod hittable_list;
pub mod image;
pub mod integrator;
pub mod material;
pub mod ppm;
pub mod sampling;
pub mod scenes;
pub mod sphere;
pub mod tone;
