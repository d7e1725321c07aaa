//! A verified ray-casting core: a free-flying camera turns pixel
//! coordinates into view rays, and an analytic tracer shades the single
//! scene sphere.  All geometry is carried out in Q47.16 fixed-point
//! arithmetic so that every step has an exact mathematical meaning.

pub mod camera;
pub mod fixed;
pub mod mat;
pub mod renderer;
pub mod utils;
pub mod vec;
