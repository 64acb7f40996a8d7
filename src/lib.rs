//! A small path tracer over fixed-point arithmetic.
//!
//! Every real quantity (a coordinate, a ray parameter, a colour channel) is an
//! integer count of `1 / ONE` units, so that the whole renderer is exact integer
//! arithmetic whose behaviour is stated and proved. Vector operations saturate
//! to the range of `i32` instead of overflowing; products and quotients round
//! down.
//!
//! - `fixed`: the unit, saturation, floor division, integer square roots.
//! - `vector`: three-component vectors (points, directions, colours).
//! - `ray`, `hit`: rays, hit records and the `Solid` capability.
//! - `sphere`, `scene`: ray-sphere intersection and the nearest hit in a scene.
//! - `camera`: rays through the viewport.
//! - `sampling`: random numbers and random vectors from a seedable generator.
//! - `render`: the path integrator, per-pixel sampling and pixel bytes.
pub mod fixed;
pub mod vector;
pub mod ray;
pub mod hit;
pub mod sphere;
pub mod scene;
pub mod camera;
pub mod sampling;
pub mod render;
