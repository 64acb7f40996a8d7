//! Spheres and the ray-sphere intersection.
use vstd::prelude::*;

use crate::fixed::{div_floor, fdiv, fmul, isqrt, lemma_sqrt_floor_exists, mul_wide, sqrt_floor, ONE};
use crate::hit::{faces_front, oriented_normal, HitRecord, Solid};
use crate::ray::Ray;
use crate::vector::{Point3D, Vec3};

verus! {

/// A sphere with a centre and a positive fixed-point radius.
#[derive(Clone, Copy, Debug, PartialEq, Eq, Structural)]
pub struct Sphere {
    center: Point3D,
    radius: i32,
}

/// The half-coefficient quadratic of a ray against a sphere, `a t^2 + 2 hb t + c`,
/// and its discriminant `hb^2 - a c`. It only appears in specifications.
pub struct Quadratic {
    pub a: int,
    pub hb: int,
    pub c: int,
    pub disc: int,
}

/// The squared length, in units of `ONE * ONE`, below which a direction is short.
pub const SHORT_DIRECTION: u128 = 0x1_0000_0000;

impl Sphere {
    #[verifier::type_invariant]
    spec fn radius_positive(self) -> bool {
        self.radius > 0
    }

    pub closed spec fn center_spec(self) -> Point3D {
        self.center
    }

    pub closed spec fn radius_spec(self) -> int {
        self.radius as int
    }

    /// The quadratic in `t` whose roots are where the ray meets the sphere.
    ///
    /// For a direction shorter than one (squared length below `ONE * ONE` in
    /// units of `ONE * ONE`) the coefficients are exact, in units of `ONE * ONE`,
    /// so that every non-zero direction has `a > 0`. For longer directions they
    /// are in fixed point (units of `ONE`), so that the discriminant fits in
    /// `i128`. Both scale the same real quadratic, and so give the same roots.
    pub open spec fn quadratic(self, ray: Ray) -> Quadratic {
        let oc = ray.origin.sub_spec(self.center_spec());
        let r = self.radius_spec();
        if ray.direction.sum_sq() < SHORT_DIRECTION {
            let a = ray.direction.sum_sq();
            let hb = oc.raw_dot(ray.direction);
            let c = oc.sum_sq() - r * r;
            Quadratic { a, hb, c, disc: hb * hb - a * c }
        } else {
            let a = ray.direction.len_squared_spec();
            let hb = oc.dot_spec(ray.direction);
            let c = oc.len_squared_spec() - fmul(r, r);
            Quadratic { a, hb, c, disc: hb * hb - a * c }
        }
    }

    /// The ray meets the sphere's surface (at one or two parameters); `a > 0`
    /// holds exactly for a non-zero direction.
    pub open spec fn meets(self, ray: Ray) -> bool {
        let q = self.quadratic(ray);
        q.a > 0 && q.disc >= 0
    }

    /// The nearer root, in fixed point, rounded down.
    pub open spec fn near_root(self, ray: Ray) -> int {
        let q = self.quadratic(ray);
        fdiv((-q.hb - sqrt_floor(q.disc)) * ONE, q.a)
    }

    /// The farther root, in fixed point, rounded down.
    pub open spec fn far_root(self, ray: Ray) -> int {
        let q = self.quadratic(ray);
        fdiv((-q.hb + sqrt_floor(q.disc)) * ONE, q.a)
    }

    /// The first of the two roots that lies strictly between `t_min` and `t_max`.
    pub open spec fn first_root(self, ray: Ray, t_min: int, t_max: int) -> Option<int> {
        if !self.meets(ray) {
            None
        } else if t_min < self.near_root(ray) < t_max {
            Some(self.near_root(ray))
        } else if t_min < self.far_root(ray) < t_max {
            Some(self.far_root(ray))
        } else {
            None
        }
    }

    /// The record of the ray meeting the sphere at parameter `t`.
    pub open spec fn record_at(self, ray: Ray, t: int) -> HitRecord {
        let point = ray.at_spec(t);
        let outward = point.sub_spec(self.center_spec()).div_spec(self.radius_spec());
        HitRecord {
            point,
            normal: oriented_normal(ray, outward),
            front_face: faces_front(ray, outward),
            t: t as i64,
        }
    }

    /// What `hit` returns.
    pub open spec fn hit_spec(self, ray: Ray, t_min: int, t_max: int) -> Option<HitRecord> {
        match self.first_root(ray, t_min, t_max) {
            Some(t) => Some(self.record_at(ray, t)),
            None => None,
        }
    }

    /// A sphere around `center`; the radius must be positive.
    pub fn new(center: Point3D, radius: i32) -> (r: Sphere)
        requires
            radius > 0,
        ensures
            r.center_spec() == center,
            r.radius_spec() == radius,
    {
        Sphere { center, radius }
    }

    pub fn center(&self) -> (r: Point3D)
        ensures
            r == self.center_spec(),
    {
        self.center
    }

    pub fn radius(&self) -> (r: i32)
        ensures
            r == self.radius_spec(),
            r > 0,
    {
        proof {
            use_type_invariant(self);
        }
        self.radius
    }

    /// The nearest point where `ray` meets the sphere with a parameter strictly
    /// between `pos_min` and `pos_max`, if there is one; a ray with a zero
    /// direction meets nothing.
    pub fn hit(&self, ray: &Ray, pos_min: i64, pos_max: i64) -> (r: Option<HitRecord>)
        ensures
            r == self.hit_spec(*ray, pos_min as int, pos_max as int),
            r matches Some(h) ==> h.normal.raw_dot(ray.direction) <= 0 && pos_min < h.t < pos_max
                && h.point == ray.at_spec(h.t as int),
    {
        proof {
            use_type_invariant(self);
        }
        let oc = ray.origin.sub(&self.center);
        let s = ray.direction.sum_sq_exec();
        let (a, hb, c): (i128, i128, i128) = if s < SHORT_DIRECTION {
            proof {
                lemma_short_bounds(oc, ray.direction);
            }
            (s as i128, oc.raw_dot_exec(&ray.direction), oc.sum_sq_exec() as i128 - mul_wide(self.radius, self.radius))
        } else {
            proof {
                oc.lemma_dot_bound(ray.direction);
                oc.lemma_dot_bound(oc);
                ray.direction.lemma_dot_bound(ray.direction);
                lemma_fmul_radius_bound(self.radius as int);
            }
            (
                ray.direction.len_squared() as i128,
                oc.dot(&ray.direction) as i128,
                oc.len_squared() as i128 - div_floor(mul_wide(self.radius, self.radius), ONE as i128),
            )
        };
        proof {
            lemma_disc_bounds(a as int, hb as int, c as int);
        }
        let disc: i128 = hb * hb - a * c;
        if a <= 0 || disc < 0 {
            return None;
        }
        let sq: u128 = isqrt(disc as u128);
        proof {
            lemma_isqrt_bound(sq as int, disc as int);
        }
        let near: i128 = div_floor((-hb - sq as i128) * ONE as i128, a);
        let root: i64 = if (pos_min as i128) < near && near < pos_max as i128 {
            near as i64
        } else {
            let far: i128 = div_floor((-hb + sq as i128) * ONE as i128, a);
            if (pos_min as i128) < far && far < pos_max as i128 {
                far as i64
            } else {
                return None;
            }
        };
        let point = ray.at(root);
        let outward = point.sub(&self.center).div(self.radius as i64);
        let mut record = HitRecord { point, normal: outward, front_face: true, t: root };
        record.set_face_norm(ray, outward);
        Some(record)
    }
}

impl Solid for Sphere {
    open spec fn hits(&self, ray: Ray, t_min: int, t_max: int) -> Option<HitRecord> {
        self.hit_spec(ray, t_min, t_max)
    }

    proof fn lemma_window_shrinks(&self, ray: Ray, t_min: int, c: int, t_max: int) {
        lemma_sphere_window_shrinks(*self, ray, t_min, c, t_max);
    }

    fn hit(&self, ray: &Ray, pos_min: i64, pos_max: i64) -> (r: Option<HitRecord>) {
        Sphere::hit(self, ray, pos_min, pos_max)
    }
}

/// Narrowing the window from `(t_min, t_max)` to `(t_min, c)` keeps a hit nearer
/// than `c` and loses only hits at `c` or beyond.
pub proof fn lemma_sphere_window_shrinks(s: Sphere, ray: Ray, t_min: int, c: int, t_max: int)
    requires
        i64::MIN <= t_min,
        c <= t_max <= i64::MAX,
    ensures
        s.hit_spec(ray, t_min, c) matches Some(h) ==> s.hit_spec(ray, t_min, t_max) == Some(h)
            && t_min < h.t < c,
        s.hit_spec(ray, t_min, c) is None ==> (s.hit_spec(ray, t_min, t_max) matches Some(h) ==> h.t
            >= c),
{
    if s.meets(ray) {
        lemma_roots_ordered(s, ray);
        let (near, far) = (s.near_root(ray), s.far_root(ray));
        if t_min < near < c {
            assert(s.hit_spec(ray, t_min, c) == Some(s.record_at(ray, near)));
            assert(s.hit_spec(ray, t_min, t_max) == Some(s.record_at(ray, near)));
        } else if t_min < far < c {
            assert(s.hit_spec(ray, t_min, c) == Some(s.record_at(ray, far)));
            assert(s.hit_spec(ray, t_min, t_max) == Some(s.record_at(ray, far)));
        } else if t_min < near < t_max {
            assert(s.hit_spec(ray, t_min, t_max) == Some(s.record_at(ray, near)));
        } else if t_min < far < t_max {
            assert(s.hit_spec(ray, t_min, t_max) == Some(s.record_at(ray, far)));
        }
    }
}

/// The nearer root is not beyond the farther one.
pub proof fn lemma_roots_ordered(s: Sphere, ray: Ray)
    requires
        s.meets(ray),
    ensures
        s.near_root(ray) <= s.far_root(ray),
{
    let q = s.quadratic(ray);
    lemma_sqrt_floor_exists(q.disc);
    let sq = sqrt_floor(q.disc);
    assert((-q.hb - sq) * ONE <= (-q.hb + sq) * ONE) by (nonlinear_arith)
        requires
            sq >= 0,
    ;
    vstd::arithmetic::div_mod::lemma_div_is_ordered((-q.hb - sq) * ONE, (-q.hb + sq) * ONE, q.a);
}


/// `fmul(r, r)` of a coordinate is at most `2^46`.
proof fn lemma_fmul_radius_bound(r: int)
    requires
        0 < r < 0x8000_0000,
    ensures
        0 <= fmul(r, r) <= 0x4000_0000_0000,
{
    assert(0 <= r * r <= 0x4000_0000_0000_0000) by (nonlinear_arith)
        requires
            0 < r < 0x8000_0000,
    ;
    vstd::arithmetic::div_mod::lemma_div_pos_is_pos(r * r, ONE as int);
    vstd::arithmetic::div_mod::lemma_div_is_ordered(r * r, 0x4000_0000_0000_0000, ONE as int);
}

/// Bounds that keep the discriminant within `i128`.
proof fn lemma_disc_bounds(a: int, hb: int, c: int)
    requires
        0 <= a <= 0x4_0000_0000_0000,
        -0x4_0000_0000_0000 <= hb <= 0x4_0000_0000_0000,
        -0x8_0000_0000_0000 <= c <= 0x8_0000_0000_0000 || (0 <= a < 0x1_0000_0000 && -0x2_0000_0000_0000_0000
            <= c <= 0x2_0000_0000_0000_0000),
    ensures
        0 <= hb * hb <= 0x10_0000_0000_0000_0000_0000_0000,
        -0x20_0000_0000_0000_0000_0000_0000 <= a * c <= 0x20_0000_0000_0000_0000_0000_0000,
{
    assert(0 <= hb * hb <= 0x10_0000_0000_0000_0000_0000_0000) by (nonlinear_arith)
        requires
            -0x4_0000_0000_0000 <= hb <= 0x4_0000_0000_0000,
    ;
    if -0x8_0000_0000_0000 <= c <= 0x8_0000_0000_0000 {
        assert(-0x20_0000_0000_0000_0000_0000_0000 <= a * c <= 0x20_0000_0000_0000_0000_0000_0000)
            by (nonlinear_arith)
            requires
                0 <= a <= 0x4_0000_0000_0000,
                -0x8_0000_0000_0000 <= c <= 0x8_0000_0000_0000,
        ;
    } else {
        assert(-0x20_0000_0000_0000_0000_0000_0000 <= a * c <= 0x20_0000_0000_0000_0000_0000_0000)
            by (nonlinear_arith)
            requires
                0 <= a < 0x1_0000_0000,
                -0x2_0000_0000_0000_0000 <= c <= 0x2_0000_0000_0000_0000,
        ;
    }
}

/// For a short direction the exact coefficients are small: `|hb| <= 2^50` and
/// `|c| <= 2^65`.
proof fn lemma_short_bounds(oc: Vec3, d: Vec3)
    requires
        d.sum_sq() < SHORT_DIRECTION,
    ensures
        -0x4_0000_0000_0000 <= oc.raw_dot(d) <= 0x4_0000_0000_0000,
        0 <= oc.sum_sq() < 0x1_0000_0000_0000_0000,
{
    oc.lemma_sum_sq_bounds();
    d.lemma_sum_sq_bounds();
    let (dx, dy, dz) = (d.x as int, d.y as int, d.z as int);
    assert(dx * dx < 0x1_0000_0000 && dy * dy < 0x1_0000_0000 && dz * dz < 0x1_0000_0000) by (nonlinear_arith)
        requires
            dx * dx + dy * dy + dz * dz < 0x1_0000_0000,
    ;
    lemma_short_product(oc.x as int, dx);
    lemma_short_product(oc.y as int, dy);
    lemma_short_product(oc.z as int, dz);
}

/// A coordinate times a component whose square is below `2^32` stays within `2^47`.
proof fn lemma_short_product(o: int, d: int)
    requires
        -0x8000_0000 <= o < 0x8000_0000,
        d * d < 0x1_0000_0000,
    ensures
        -0x8000_0000_0000 <= o * d <= 0x8000_0000_0000,
{
    assert(-0x1_0000 < d < 0x1_0000) by (nonlinear_arith)
        requires
            d * d < 0x1_0000_0000,
    ;
    assert(-0x8000_0000_0000 <= o * d <= 0x8000_0000_0000) by (nonlinear_arith)
        requires
            -0x8000_0000 <= o < 0x8000_0000,
            -0x1_0000 < d < 0x1_0000,
    ;
}

/// The square root of a discriminant is at most `2^51`.
proof fn lemma_isqrt_bound(sq: int, disc: int)
    requires
        sq * sq <= disc,
        0 <= sq,
        disc <= 0x40_0000_0000_0000_0000_0000_0000,
    ensures
        sq <= 0x8_0000_0000_0000,
{
    if sq > 0x8_0000_0000_0000 {
        assert(sq * sq > 0x40_0000_0000_0000_0000_0000_0000) by (nonlinear_arith)
            requires
                sq > 0x8_0000_0000_0000,
        ;
    }
}

} // verus!
