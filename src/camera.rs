//! The pinhole camera that turns viewport coordinates into rays.
use vstd::prelude::*;

use crate::fixed::{div_floor, fmul, mul_scalar, saturate, HALF, ONE};
use crate::ray::Ray;
use crate::vector::{Point3D, Vec3, Vector3D};

verus! {

/// A camera at the origin looking down the negative `z` axis through a
/// rectangular viewport.
pub struct Camera {
    origin: Point3D,
    lower_left_corner: Point3D,
    horizontal: Vector3D,
    vertical: Vector3D,
}

/// The lower-left corner of the viewport: `origin - horizontal / 2 - vertical / 2 - (0, 0, focal_length)`.
pub open spec fn corner_of(origin: Vec3, horizontal: Vec3, vertical: Vec3, focal_length: int) -> Vec3 {
    origin.sub_spec(horizontal.scale_spec(HALF as int)).sub_spec(vertical.scale_spec(HALF as int)).sub_spec(
        Vec3 { x: 0, y: 0, z: focal_length as i32 },
    )
}

impl Camera {
    pub closed spec fn origin_spec(self) -> Point3D {
        self.origin
    }

    pub closed spec fn lower_left_corner_spec(self) -> Point3D {
        self.lower_left_corner
    }

    pub closed spec fn horizontal_spec(self) -> Vector3D {
        self.horizontal
    }

    pub closed spec fn vertical_spec(self) -> Vector3D {
        self.vertical
    }

    /// The direction of the ray through viewport coordinates `(u, v)`.
    pub open spec fn direction_spec(self, u: int, v: int) -> Vector3D {
        self.lower_left_corner_spec().add_spec(self.horizontal_spec().scale_spec(u)).add_spec(
            self.vertical_spec().scale_spec(v).sub_spec(self.origin_spec()),
        )
    }

    /// A camera for the given aspect ratio (width over height), viewport height and
    /// focal length, all fixed-point; the viewport width saturates to a coordinate.
    pub fn new(aspect_ratio: i64, viewport_height: i32, focal_length: i32) -> (r: Camera)
        ensures
            r.origin_spec() == (Vec3 { x: 0, y: 0, z: 0 }),
            r.horizontal_spec() == (Vec3 {
                x: crate::fixed::clamp32(fmul(viewport_height as int, aspect_ratio as int)) as i32,
                y: 0,
                z: 0,
            }),
            r.vertical_spec() == (Vec3 { x: 0, y: viewport_height, z: 0 }),
            r.lower_left_corner_spec() == corner_of(
                r.origin_spec(),
                r.horizontal_spec(),
                r.vertical_spec(),
                focal_length as int,
            ),
    {
        let viewport_w: i32 = saturate(div_floor(mul_scalar(viewport_height, aspect_ratio), ONE as i128));
        let origin = Vec3::zero();
        let horizontal = Vec3::new(viewport_w, 0, 0);
        let vertical = Vec3::new(0, viewport_height, 0);
        let lower_left_corner = origin.sub(&horizontal.mul_by(HALF)).sub(&vertical.mul_by(HALF)).sub(
            &Vec3::new(0, 0, focal_length),
        );
        Camera { origin, lower_left_corner, horizontal, vertical }
    }

    /// The ray from the camera through viewport coordinates `(u, v)`, where
    /// `(0, 0)` is the lower-left corner and `(ONE, ONE)` the upper-right one.
    pub fn get_ray(&self, u: i64, v: i64) -> (r: Ray)
        ensures
            r.origin == self.origin_spec(),
            r.direction == self.direction_spec(u as int, v as int),
    {
        Ray::new(
            self.origin,
            self.lower_left_corner.add(&self.horizontal.mul_by(u)).add(
                &self.vertical.mul_by(v).sub(&self.origin),
            ),
        )
    }
}

} // verus!
