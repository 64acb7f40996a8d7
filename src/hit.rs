//! The record of a ray meeting a surface.
use vstd::prelude::*;

use crate::ray::Ray;
use crate::vector::{Point3D, Vec3, Vector3D};

verus! {

/// Where a ray met a surface: the point, the normal turned against the ray,
/// whether the ray met the outer side, and the ray parameter `t`.
#[derive(Clone, Copy, Debug, PartialEq, Eq, Structural)]
pub struct HitRecord {
    pub point: Point3D,
    pub normal: Vector3D,
    pub front_face: bool,
    pub t: i64,
}

/// The ray meets the outer side of a surface with this outward normal.
pub open spec fn faces_front(ray: Ray, outward: Vec3) -> bool {
    ray.direction.dot_spec(outward) < 0
}

/// The outward normal, turned to face against the ray.
pub open spec fn oriented_normal(ray: Ray, outward: Vec3) -> Vec3 {
    if faces_front(ray, outward) {
        outward
    } else {
        outward.neg_spec()
    }
}

/// No component is `i32::MIN`: the vector lies in the symmetric coordinate
/// range that every vector operation produces, so negating it is exact.
pub open spec fn in_symmetric_range(v: Vec3) -> bool {
    v.x != i32::MIN && v.y != i32::MIN && v.z != i32::MIN
}

/// Anything a ray can meet: a single shape or a whole scene.
pub trait Solid {
    /// What `hit` returns for `ray` in the open window `(t_min, t_max)`.
    spec fn hits(&self, ray: Ray, t_min: int, t_max: int) -> Option<HitRecord>;

    /// Narrowing the window from `(t_min, t_max)` to `(t_min, c)` keeps a hit
    /// nearer than `c`, loses only hits at `c` or beyond, and every hit lies
    /// inside its window.
    proof fn lemma_window_shrinks(&self, ray: Ray, t_min: int, c: int, t_max: int)
        requires
            i64::MIN <= t_min,
            c <= t_max <= i64::MAX,
        ensures
            self.hits(ray, t_min, c) matches Some(h) ==> self.hits(ray, t_min, t_max) == Some(h)
                && t_min < h.t < c,
            self.hits(ray, t_min, c) is None ==> (self.hits(ray, t_min, t_max) matches Some(h)
                ==> h.t >= c),
    ;

    /// The nearest point where `ray` meets the solid with a parameter strictly
    /// between `pos_min` and `pos_max`, if there is one.
    fn hit(&self, ray: &Ray, pos_min: i64, pos_max: i64) -> (r: Option<HitRecord>)
        ensures
            r == self.hits(*ray, pos_min as int, pos_max as int),
    ;
}

impl HitRecord {
    /// Sets `front_face` and `normal` from the outward normal of the surface.
    pub fn set_face_norm(&mut self, ray: &Ray, outward_norm: Vector3D)
        requires
            in_symmetric_range(outward_norm),
        ensures
            final(self).front_face == faces_front(*ray, outward_norm),
            final(self).normal == oriented_normal(*ray, outward_norm),
            final(self).point == old(self).point,
            final(self).t == old(self).t,
            final(self).normal.raw_dot(ray.direction) <= 0,
    {
        self.front_face = ray.direction.dot(&outward_norm) < 0;
        self.normal = if self.front_face {
            outward_norm
        } else {
            outward_norm.neg()
        };
        proof {
            lemma_oriented_against(*ray, outward_norm);
        }
    }
}

/// The oriented normal never points along the ray.
pub proof fn lemma_oriented_against(ray: Ray, outward: Vec3)
    requires
        in_symmetric_range(outward),
    ensures
        oriented_normal(ray, outward).raw_dot(ray.direction) <= 0,
{
    let d = ray.direction;
    let n = outward;
    if faces_front(ray, outward) {
        assert(d.raw_dot(n) < 0) by {
            if d.raw_dot(n) >= 0 {
                vstd::arithmetic::div_mod::lemma_div_pos_is_pos(d.raw_dot(n), 65536);
            }
        }
        assert(n.raw_dot(d) == d.raw_dot(n)) by (nonlinear_arith);
    } else {
        assert(d.raw_dot(n) >= 0) by {
            if d.raw_dot(n) < 0 {
                vstd::arithmetic::div_mod::lemma_div_is_ordered(d.raw_dot(n), -1, 65536);
            }
        }
        let m = n.neg_spec();
        assert(m.x == -n.x && m.y == -n.y && m.z == -n.z);
        assert(m.raw_dot(d) == -d.raw_dot(n)) by (nonlinear_arith)
            requires
                m.x == -n.x && m.y == -n.y && m.z == -n.z,
        ;
    }
}

} // verus!
