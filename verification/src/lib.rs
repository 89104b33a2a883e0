//! Core of a sphere ray tracer: the scene-object material kinds, the pixel
//! color type, per-frame pixel maps with temporal accumulation, the bounce
//! decision logic of the recursive tracer, and the pixel layout of the ray
//! fan. The floating-point geometry (intersection, reflection, refraction)
//! lives in the surrounding application; this crate holds everything the
//! tracer decides and aggregates over plain integer and boolean values.

pub mod color;
pub mod frame;
pub mod observer;
pub mod parameters;
pub mod ray_trace;
pub mod sphere;
pub mod util;
