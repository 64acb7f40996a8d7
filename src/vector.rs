//! Three-component fixed-point vectors, used as points, directions and colours.
use vstd::prelude::*;

use crate::fixed::{
    clamp32, div_floor, fdiv, fmul, isqrt, mul_scalar, mul_wide, saturate, sqrt_floor, ONE,
};

verus! {

/// A vector of three fixed-point components (`x / ONE`, `y / ONE`, `z / ONE`).
///
/// Every operation saturates its result to `[-i32::MAX, i32::MAX]`, so none
/// of them can overflow and every result can be negated exactly.
#[derive(Clone, Copy, Debug, PartialEq, Eq, Structural)]
pub struct Vec3 {
    pub x: i32,
    pub y: i32,
    pub z: i32,
}

/// A position in space.
pub type Point3D = Vec3;

/// A direction in space.
pub type Vector3D = Vec3;

/// An RGB colour: `x`, `y` and `z` are the red, green and blue channels.
pub type Color = Vec3;

/// Builds a vector from three mathematical components, saturating each one.
pub open spec fn vec3_sat(x: int, y: int, z: int) -> Vec3 {
    Vec3 { x: clamp32(x) as i32, y: clamp32(y) as i32, z: clamp32(z) as i32 }
}

impl Vec3 {
    /// The sum of the products of the components, in units of `ONE * ONE`.
    pub open spec fn raw_dot(self, o: Vec3) -> int {
        self.x * o.x + self.y * o.y + self.z * o.z
    }

    /// The sum of the squared components, in units of `ONE * ONE`.
    pub open spec fn sum_sq(self) -> int {
        self.raw_dot(self)
    }

    /// The fixed-point dot product, rounded down.
    pub open spec fn dot_spec(self, o: Vec3) -> int {
        fdiv(self.raw_dot(o), ONE as int)
    }

    /// The fixed-point squared length, rounded down.
    pub open spec fn len_squared_spec(self) -> int {
        self.dot_spec(self)
    }

    /// The fixed-point Euclidean length, rounded down.
    pub open spec fn len_spec(self) -> int {
        sqrt_floor(self.sum_sq())
    }

    pub open spec fn add_spec(self, o: Vec3) -> Vec3 {
        vec3_sat(self.x + o.x, self.y + o.y, self.z + o.z)
    }

    pub open spec fn sub_spec(self, o: Vec3) -> Vec3 {
        vec3_sat(self.x - o.x, self.y - o.y, self.z - o.z)
    }

    pub open spec fn neg_spec(self) -> Vec3 {
        vec3_sat(-self.x, -self.y, -self.z)
    }

    /// Component-wise product.
    pub open spec fn mul_spec(self, o: Vec3) -> Vec3 {
        vec3_sat(fmul(self.x as int, o.x as int), fmul(self.y as int, o.y as int), fmul(self.z as int, o.z as int))
    }

    /// Product with the fixed-point scalar `s`.
    pub open spec fn scale_spec(self, s: int) -> Vec3 {
        vec3_sat(fmul(self.x as int, s), fmul(self.y as int, s), fmul(self.z as int, s))
    }

    /// Quotient by the non-zero fixed-point scalar `s`.
    pub open spec fn div_spec(self, s: int) -> Vec3 {
        vec3_sat(fdiv(self.x * ONE, s), fdiv(self.y * ONE, s), fdiv(self.z * ONE, s))
    }

    /// The fixed-point cross product, each component rounded down.
    pub open spec fn cross_spec(self, o: Vec3) -> Vec3 {
        vec3_sat(self.cross_x(o), self.cross_y(o), self.cross_z(o))
    }

    pub open spec fn cross_x(self, o: Vec3) -> int {
        fdiv(self.y * o.z - self.z * o.y, ONE as int)
    }

    pub open spec fn cross_y(self, o: Vec3) -> int {
        fdiv(self.z * o.x - self.x * o.z, ONE as int)
    }

    pub open spec fn cross_z(self, o: Vec3) -> int {
        fdiv(self.x * o.y - self.y * o.x, ONE as int)
    }

    /// Every component of the cross product fits the coordinate range.
    pub open spec fn cross_fits(self, o: Vec3) -> bool {
        &&& -i32::MAX <= self.cross_x(o) <= i32::MAX
        &&& -i32::MAX <= self.cross_y(o) <= i32::MAX
        &&& -i32::MAX <= self.cross_z(o) <= i32::MAX
    }

    /// The length in units of `ONE * ONE`, rounded down: the divisor of `unit_spec`.
    pub open spec fn fine_len(self) -> int {
        sqrt_floor(self.sum_sq() * (ONE * ONE))
    }

    /// The vector scaled to length one; the zero vector stays zero.
    pub open spec fn unit_spec(self) -> Vec3 {
        if self.sum_sq() == 0 {
            vec3_sat(0, 0, 0)
        } else {
            vec3_sat(
                fdiv(self.x * (ONE * ONE), self.fine_len()),
                fdiv(self.y * (ONE * ONE), self.fine_len()),
                fdiv(self.z * (ONE * ONE), self.fine_len()),
            )
        }
    }

    /// The component at `i`: 0 is `x`, 1 is `y`, 2 is `z`.
    pub open spec fn index_spec(self, i: int) -> i32 {
        if i == 0 {
            self.x
        } else if i == 1 {
            self.y
        } else {
            self.z
        }
    }

    pub fn new(v0: i32, v1: i32, v2: i32) -> (r: Vec3)
        ensures
            r == (Vec3 { x: v0, y: v1, z: v2 }),
    {
        Vec3 { x: v0, y: v1, z: v2 }
    }

    /// The zero vector (black, as a colour).
    pub fn zero() -> (r: Vec3)
        ensures
            r == (Vec3 { x: 0, y: 0, z: 0 }),
    {
        Vec3 { x: 0, y: 0, z: 0 }
    }

    pub fn add(&self, o: &Vec3) -> (r: Vec3)
        ensures
            r == self.add_spec(*o),
    {
        Vec3 {
            x: saturate(self.x as i128 + o.x as i128),
            y: saturate(self.y as i128 + o.y as i128),
            z: saturate(self.z as i128 + o.z as i128),
        }
    }

    pub fn sub(&self, o: &Vec3) -> (r: Vec3)
        ensures
            r == self.sub_spec(*o),
    {
        Vec3 {
            x: saturate(self.x as i128 - o.x as i128),
            y: saturate(self.y as i128 - o.y as i128),
            z: saturate(self.z as i128 - o.z as i128),
        }
    }

    pub fn neg(&self) -> (r: Vec3)
        ensures
            r == self.neg_spec(),
    {
        Vec3 {
            x: saturate(-(self.x as i128)),
            y: saturate(-(self.y as i128)),
            z: saturate(-(self.z as i128)),
        }
    }

    /// Component-wise product of two vectors.
    pub fn mul(&self, o: &Vec3) -> (r: Vec3)
        ensures
            r == self.mul_spec(*o),
    {
        Vec3 {
            x: saturate(div_floor(mul_wide(self.x, o.x), ONE as i128)),
            y: saturate(div_floor(mul_wide(self.y, o.y), ONE as i128)),
            z: saturate(div_floor(mul_wide(self.z, o.z), ONE as i128)),
        }
    }

    /// A new vector: this one multiplied by the fixed-point scalar `value`.
    pub fn mul_by(&self, value: i64) -> (r: Vec3)
        ensures
            r == self.scale_spec(value as int),
    {
        Vec3 {
            x: saturate(div_floor(mul_scalar(self.x, value), ONE as i128)),
            y: saturate(div_floor(mul_scalar(self.y, value), ONE as i128)),
            z: saturate(div_floor(mul_scalar(self.z, value), ONE as i128)),
        }
    }

    /// A new vector: this one divided by the non-zero fixed-point scalar `value`.
    pub fn div(&self, value: i64) -> (r: Vec3)
        requires
            value != 0,
        ensures
            r == self.div_spec(value as int),
    {
        Vec3 {
            x: saturate(div_floor(mul_scalar(self.x, ONE), value as i128)),
            y: saturate(div_floor(mul_scalar(self.y, ONE), value as i128)),
            z: saturate(div_floor(mul_scalar(self.z, ONE), value as i128)),
        }
    }

    /// The dot product of two vectors.
    pub fn dot(&self, o: &Vec3) -> (r: i64)
        ensures
            r == self.dot_spec(*o),
    {
        let px: i128 = mul_wide(self.x, o.x);
        let py: i128 = mul_wide(self.y, o.y);
        let pz: i128 = mul_wide(self.z, o.z);
        let q: i128 = div_floor(px + py + pz, ONE as i128);
        assert(-0x4_0000_0000_0000 <= q <= 0x4_0000_0000_0000) by {
            vstd::arithmetic::div_mod::lemma_div_is_ordered(
                -0x1_0000_0000_0000_0000,
                px + py + pz,
                ONE as int,
            );
            vstd::arithmetic::div_mod::lemma_div_is_ordered(
                px + py + pz,
                0x1_0000_0000_0000_0000,
                ONE as int,
            );
        }
        q as i64
    }

    /// The squared length.
    pub fn len_squared(&self) -> (r: i64)
        ensures
            r == self.len_squared_spec(),
            r >= 0,
    {
        proof {
            self.lemma_sum_sq_bounds();
            vstd::arithmetic::div_mod::lemma_div_pos_is_pos(self.sum_sq(), ONE as int);
        }
        self.dot(self)
    }

    /// A fixed-point dot product lies within `2^50` of zero; a squared length is non-negative.
    pub proof fn lemma_dot_bound(self, o: Vec3)
        ensures
            -0x4_0000_0000_0000 <= self.dot_spec(o) <= 0x4_0000_0000_0000,
            self.len_squared_spec() >= 0,
    {
        lemma_raw_product_bound(self.x as int, o.x as int);
        lemma_raw_product_bound(self.y as int, o.y as int);
        lemma_raw_product_bound(self.z as int, o.z as int);
        vstd::arithmetic::div_mod::lemma_div_is_ordered(
            -0x1_0000_0000_0000_0000,
            self.raw_dot(o),
            ONE as int,
        );
        vstd::arithmetic::div_mod::lemma_div_is_ordered(
            self.raw_dot(o),
            0x1_0000_0000_0000_0000,
            ONE as int,
        );
        self.lemma_sum_sq_bounds();
        vstd::arithmetic::div_mod::lemma_div_pos_is_pos(self.sum_sq(), ONE as int);
    }

    /// Every component of a unit vector lies in `[-ONE, ONE]`.
    pub proof fn lemma_unit_components_bounded(self)
        ensures
            -ONE <= self.unit_spec().x <= ONE,
            -ONE <= self.unit_spec().y <= ONE,
            -ONE <= self.unit_spec().z <= ONE,
    {
        if self.sum_sq() != 0 {
            self.lemma_sum_sq_bounds();
            let n = self.sum_sq();
            crate::fixed::lemma_sqrt_floor_exists(n * (ONE * ONE));
            let l = self.fine_len();
            assert(self.x * self.x <= n && self.y * self.y <= n && self.z * self.z <= n) by (nonlinear_arith)
                requires
                    n == self.x * self.x + self.y * self.y + self.z * self.z,
            ;
            lemma_unit_component(self.x as int, n, l);
            lemma_unit_component(self.y as int, n, l);
            lemma_unit_component(self.z as int, n, l);
        }
    }

    /// A unit vector has length one, up to fixed-point rounding: the squared length
    /// of the unit vector of any non-zero vector lies between
    /// `ONE * ONE - 6 * ONE - 3` and `ONE * ONE + 8 * ONE` (a relative error
    /// below `2^-12`).
    pub proof fn lemma_unit_vector_length(self)
        requires
            self.sum_sq() > 0,
        ensures
            ONE * ONE - 6 * ONE - 3 <= self.unit_spec().sum_sq() <= ONE * ONE + 8 * ONE,
    {
        self.lemma_sum_sq_bounds();
        self.lemma_unit_components_bounded();
        let n = self.sum_sq();
        let s = ONE as int;
        crate::fixed::lemma_sqrt_floor_exists(n * (s * s));
        let l = self.fine_len();
        assert(l >= s) by (nonlinear_arith)
            requires
                n >= 1,
                n * (s * s) < (l + 1) * (l + 1),
                l >= 0,
                s == 65536,
        ;
        let u = self.unit_spec();
        let (wx, rx) = lemma_unit_component_parts(self.x as int, l, u.x as int);
        let (wy, ry) = lemma_unit_component_parts(self.y as int, l, u.y as int);
        let (wz, rz) = lemma_unit_component_parts(self.z as int, l, u.z as int);
        let q = u.sum_sq();
        let w = wx + wy + wz;
        let r = rx + ry + rz;
        let m = n * (s * s);
        let (x, y, z) = (self.x as int, self.y as int, self.z as int);
        assert((x * (s * s)) * (x * (s * s)) + (y * (s * s)) * (y * (s * s)) + (z * (s * s)) * (z
            * (s * s)) == m * (s * s)) by (nonlinear_arith)
            requires
                n == x * x + y * y + z * z,
                m == n * (s * s),
                s == 65536,
        ;
        assert((l * l) * q == (l * l) * (u.x * u.x) + (l * l) * (u.y * u.y) + (l * l) * (u.z
            * u.z)) by (nonlinear_arith)
            requires
                q == u.x * u.x + u.y * u.y + u.z * u.z,
        ;
        assert(2 * (l * w) == 2 * (l * wx) + 2 * (l * wy) + 2 * (l * wz)) by (nonlinear_arith)
            requires
                w == wx + wy + wz,
        ;
        assert((l * l) * q + 2 * (l * w) + r == m * (s * s));
        lemma_unit_length_from_parts(l, m, q, w, r);
    }

    /// Normalising a unit vector again moves each component by at most `6 / ONE`.
    pub proof fn lemma_unit_vector_stable(self)
        requires
            self.sum_sq() > 0,
        ensures
            -6 <= self.unit_spec().unit_spec().x - self.unit_spec().x <= 6,
            -6 <= self.unit_spec().unit_spec().y - self.unit_spec().y <= 6,
            -6 <= self.unit_spec().unit_spec().z - self.unit_spec().z <= 6,
    {
        let u = self.unit_spec();
        self.lemma_unit_vector_length();
        self.lemma_unit_components_bounded();
        let q = u.sum_sq();
        let k: int = 65536;
        crate::fixed::lemma_sqrt_floor_exists(q * (k * k));
        let l = u.fine_len();
        assert(l < k * k + 4 * k) by (nonlinear_arith)
            requires
                l * l <= q * (k * k),
                q <= k * k + 8 * k,
                l >= 0,
                k == 65536,
        ;
        assert(l >= k * k - 3 * k - 7) by (nonlinear_arith)
            requires
                q * (k * k) < (l + 1) * (l + 1),
                q >= k * k - 6 * k - 3,
                l >= 0,
                k == 65536,
        ;
        lemma_component_stable(u.x as int, l);
        lemma_component_stable(u.y as int, l);
        lemma_component_stable(u.z as int, l);
    }

    /// Scaling a non-zero vector by a whole number `m >= 1` (with no component
    /// saturating) keeps its unit vector, to within one unit in each component.
    pub proof fn lemma_unit_vector_scale_invariant(self, m: int)
        requires
            self.sum_sq() > 0,
            m >= 1,
            -i32::MAX <= m * self.x <= i32::MAX,
            -i32::MAX <= m * self.y <= i32::MAX,
            -i32::MAX <= m * self.z <= i32::MAX,
        ensures
            -1 <= self.scale_spec(m * ONE).unit_spec().x - self.unit_spec().x <= 1,
            -1 <= self.scale_spec(m * ONE).unit_spec().y - self.unit_spec().y <= 1,
            -1 <= self.scale_spec(m * ONE).unit_spec().z - self.unit_spec().z <= 1,
    {
        let k: int = 65536;
        let (x, y, z) = (self.x as int, self.y as int, self.z as int);
        lemma_scale_exact(x, m);
        lemma_scale_exact(y, m);
        lemma_scale_exact(z, m);
        let w = self.scale_spec(m * ONE);
        assert(w.x == m * x && w.y == m * y && w.z == m * z);
        let n = self.sum_sq();
        assert((m * x) * (m * x) == m * m * (x * x)) by (nonlinear_arith);
        assert((m * y) * (m * y) == m * m * (y * y)) by (nonlinear_arith);
        assert((m * z) * (m * z) == m * m * (z * z)) by (nonlinear_arith);
        assert(m * m * (x * x) + m * m * (y * y) + m * m * (z * z) == m * m * n) by (nonlinear_arith)
            requires
                n == x * x + y * y + z * z,
        ;
        assert(w.sum_sq() == m * m * n);
        assert(w.sum_sq() > 0) by (nonlinear_arith)
            requires
                w.sum_sq() == m * m * n,
                m >= 1,
                n > 0,
        ;
        self.lemma_sum_sq_bounds();
        w.lemma_sum_sq_bounds();
        crate::fixed::lemma_sqrt_floor_exists(n * (k * k));
        crate::fixed::lemma_sqrt_floor_exists(w.sum_sq() * (k * k));
        assert(x * x <= n && y * y <= n && z * z <= n) by (nonlinear_arith)
            requires
                n == x * x + y * y + z * z,
        ;
        let l = self.fine_len();
        let lm = w.fine_len();
        assert(w.sum_sq() * (k * k) == m * m * (n * (k * k))) by (nonlinear_arith)
            requires
                w.sum_sq() == m * m * n,
        ;
        lemma_component_scaled(x, n, l, lm, m);
        lemma_component_scaled(y, n, l, lm, m);
        lemma_component_scaled(z, n, l, lm, m);
        assert((m * x) * (k * k) == m * (x * (k * k))) by (nonlinear_arith);
        assert((m * y) * (k * k) == m * (y * (k * k))) by (nonlinear_arith);
        assert((m * z) * (k * k) == m * (z * (k * k))) by (nonlinear_arith);
        lemma_unit_component(x, n, l);
        lemma_unit_component(y, n, l);
        lemma_unit_component(z, n, l);
    }

    /// The cross product of two vectors with whole-number components is
    /// orthogonal to both, whenever it fits the coordinate range.
    pub proof fn lemma_cross_orthogonal(self, o: Vec3)
        requires
            self.x as int % ONE as int == 0 && self.y as int % ONE as int == 0 && self.z as int
                % ONE as int == 0,
            o.x as int % ONE as int == 0 && o.y as int % ONE as int == 0 && o.z as int % ONE as int
                == 0,
            self.cross_fits(o),
        ensures
            self.cross_spec(o).raw_dot(self) == 0,
            self.cross_spec(o).raw_dot(o) == 0,
    {
        let k: int = 65536;
        let (a1, a2, a3) = ((self.x as int) / k, (self.y as int) / k, (self.z as int) / k);
        let (b1, b2, b3) = ((o.x as int) / k, (o.y as int) / k, (o.z as int) / k);
        vstd::arithmetic::div_mod::lemma_fundamental_div_mod(self.x as int, k);
        vstd::arithmetic::div_mod::lemma_fundamental_div_mod(self.y as int, k);
        vstd::arithmetic::div_mod::lemma_fundamental_div_mod(self.z as int, k);
        vstd::arithmetic::div_mod::lemma_fundamental_div_mod(o.x as int, k);
        vstd::arithmetic::div_mod::lemma_fundamental_div_mod(o.y as int, k);
        vstd::arithmetic::div_mod::lemma_fundamental_div_mod(o.z as int, k);
        let (c1, c2, c3) = (a2 * b3 - a3 * b2, a3 * b1 - a1 * b3, a1 * b2 - a2 * b1);
        assert(self.y * o.z - self.z * o.y == (k * c1) * k) by (nonlinear_arith)
            requires
                self.y == k * a2,
                self.z == k * a3,
                o.y == k * b2,
                o.z == k * b3,
                c1 == a2 * b3 - a3 * b2,
        ;
        assert(self.z * o.x - self.x * o.z == (k * c2) * k) by (nonlinear_arith)
            requires
                self.x == k * a1,
                self.z == k * a3,
                o.x == k * b1,
                o.z == k * b3,
                c2 == a3 * b1 - a1 * b3,
        ;
        assert(self.x * o.y - self.y * o.x == (k * c3) * k) by (nonlinear_arith)
            requires
                self.x == k * a1,
                self.y == k * a2,
                o.x == k * b1,
                o.y == k * b2,
                c3 == a1 * b2 - a2 * b1,
        ;
        vstd::arithmetic::div_mod::lemma_fundamental_div_mod_converse((k * c1) * k, k, k * c1, 0);
        vstd::arithmetic::div_mod::lemma_fundamental_div_mod_converse((k * c2) * k, k, k * c2, 0);
        vstd::arithmetic::div_mod::lemma_fundamental_div_mod_converse((k * c3) * k, k, k * c3, 0);
        let c = self.cross_spec(o);
        assert(c.x == k * c1 && c.y == k * c2 && c.z == k * c3);
        assert(c1 * a1 + c2 * a2 + c3 * a3 == 0) by (nonlinear_arith)
            requires
                c1 == a2 * b3 - a3 * b2,
                c2 == a3 * b1 - a1 * b3,
                c3 == a1 * b2 - a2 * b1,
        ;
        assert(c1 * b1 + c2 * b2 + c3 * b3 == 0) by (nonlinear_arith)
            requires
                c1 == a2 * b3 - a3 * b2,
                c2 == a3 * b1 - a1 * b3,
                c3 == a1 * b2 - a2 * b1,
        ;
        lemma_scaled_dot(k, c1, c2, c3, a1, a2, a3);
        lemma_scaled_dot(k, c1, c2, c3, b1, b2, b3);
    }

    /// The sum of squares is zero exactly for the zero vector.
    pub proof fn lemma_sum_sq_zero(self)
        ensures
            self.sum_sq() >= 0,
            (self.sum_sq() == 0) <==> (self.x == 0 && self.y == 0 && self.z == 0),
    {
        let (x, y, z) = (self.x as int, self.y as int, self.z as int);
        assert(x * x >= 0 && y * y >= 0 && z * z >= 0) by (nonlinear_arith);
        assert(x != 0 ==> x * x > 0) by (nonlinear_arith);
        assert(y != 0 ==> y * y > 0) by (nonlinear_arith);
        assert(z != 0 ==> z * z > 0) by (nonlinear_arith);
    }

    /// The sum of squares is non-negative and below `2^64`.
    pub proof fn lemma_sum_sq_bounds(self)
        ensures
            0 <= self.sum_sq() < 0x1_0000_0000_0000_0000,
    {
        let (x, y, z) = (self.x as int, self.y as int, self.z as int);
        assert(0 <= x * x <= 0x4000_0000_0000_0000) by (nonlinear_arith)
            requires
                -0x8000_0000 <= x < 0x8000_0000,
        ;
        assert(0 <= y * y <= 0x4000_0000_0000_0000) by (nonlinear_arith)
            requires
                -0x8000_0000 <= y < 0x8000_0000,
        ;
        assert(0 <= z * z <= 0x4000_0000_0000_0000) by (nonlinear_arith)
            requires
                -0x8000_0000 <= z < 0x8000_0000,
        ;
    }

    /// The sum of the products of the components, exactly (units of `ONE * ONE`).
    pub fn raw_dot_exec(&self, o: &Vec3) -> (r: i128)
        ensures
            r == self.raw_dot(*o),
    {
        mul_wide(self.x, o.x) + mul_wide(self.y, o.y) + mul_wide(self.z, o.z)
    }

    /// The sum of the squared components, exactly (units of `ONE * ONE`).
    pub fn sum_sq_exec(&self) -> (r: u128)
        ensures
            r == self.sum_sq(),
            r < 0x1_0000_0000_0000_0000,
    {
        proof {
            self.lemma_sum_sq_bounds();
        }
        let v: i128 = mul_wide(self.x, self.x) + mul_wide(self.y, self.y) + mul_wide(self.z, self.z);
        v as u128
    }

    /// The Euclidean length.
    pub fn len(&self) -> (r: i64)
        ensures
            r == self.len_spec(),
            r >= 0,
    {
        let s: u128 = self.sum_sq_exec();
        let r: u128 = isqrt(s);
        proof {
            if r >= 0x1_0000_0000 {
                assert(r * r >= 0x1_0000_0000_0000_0000) by (nonlinear_arith)
                    requires
                        r >= 0x1_0000_0000,
                ;
            }
        }
        r as i64
    }

    /// This vector scaled to length one. The zero vector, which has no
    /// direction, is returned unchanged.
    pub fn unit_vector(&self) -> (r: Vec3)
        ensures
            r == self.unit_spec(),
    {
        let s: u128 = self.sum_sq_exec();
        if s == 0 {
            return Vec3 { x: 0, y: 0, z: 0 };
        }
        let l: u128 = isqrt(s * (ONE as u128 * ONE as u128));
        assert(l > 0) by {
            assert(s * (ONE * ONE) >= 1);
        }
        let d: i128 = l as i128;
        Vec3 {
            x: saturate(div_floor(mul_scalar(self.x, ONE * ONE), d)),
            y: saturate(div_floor(mul_scalar(self.y, ONE * ONE), d)),
            z: saturate(div_floor(mul_scalar(self.z, ONE * ONE), d)),
        }
    }

    /// The cross product of two vectors, each component rounded down; the
    /// result must fit the coordinate range.
    pub fn cross(&self, o: &Vec3) -> (r: Vec3)
        requires
            self.cross_fits(*o),
        ensures
            r == self.cross_spec(*o),
            r.x == self.cross_x(*o),
            r.y == self.cross_y(*o),
            r.z == self.cross_z(*o),
    {
        Vec3 {
            x: saturate(div_floor(mul_wide(self.y, o.z) - mul_wide(self.z, o.y), ONE as i128)),
            y: saturate(div_floor(mul_wide(self.z, o.x) - mul_wide(self.x, o.z), ONE as i128)),
            z: saturate(div_floor(mul_wide(self.x, o.y) - mul_wide(self.y, o.x), ONE as i128)),
        }
    }

    /// The component at `index`: 0 is `x`, 1 is `y`, 2 is `z`.
    pub fn index(&self, index: usize) -> (r: i32)
        requires
            index < 3,
        ensures
            r == self.index_spec(index as int),
    {
        if index == 0 {
            self.x
        } else if index == 1 {
            self.y
        } else {
            self.z
        }
    }

    /// Replaces the component at `index` with `value`.
    pub fn set(&mut self, index: usize, value: i32)
        requires
            index < 3,
        ensures
            final(self).index_spec(index as int) == value,
            forall|j: int| 0 <= j < 3 && j != index ==> final(self).index_spec(j) == old(self).index_spec(j),
    {
        if index == 0 {
            self.x = value;
        } else if index == 1 {
            self.y = value;
        } else {
            self.z = value;
        }
    }

    pub fn add_assign(&mut self, o: &Vec3)
        ensures
            *final(self) == old(self).add_spec(*o),
    {
        *self = self.add(o);
    }

    pub fn sub_assign(&mut self, o: &Vec3)
        ensures
            *final(self) == old(self).sub_spec(*o),
    {
        *self = self.sub(o);
    }

    /// Multiplies this vector in place by the fixed-point scalar `value`.
    pub fn mul_assign(&mut self, value: i64)
        ensures
            *final(self) == old(self).scale_spec(value as int),
    {
        *self = self.mul_by(value);
    }

    /// Divides this vector in place by the non-zero fixed-point scalar `value`.
    pub fn div_assign(&mut self, value: i64)
        requires
            value != 0,
        ensures
            *final(self) == old(self).div_spec(value as int),
    {
        *self = self.div(value);
    }
}

/// A component `xi` of a vector with squared length `n` (in units of `ONE * ONE`),
/// scaled by `ONE * ONE` and divided by the fine length `l`, lies in `[-ONE, ONE]`.
proof fn lemma_unit_component(xi: int, n: int, l: int)
    requires
        xi * xi <= n,
        n > 0,
        crate::fixed::is_isqrt(l, n * (ONE * ONE)),
    ensures
        -ONE <= fdiv(xi * (ONE * ONE), l) <= ONE,
{
    let s = ONE as int;
    let ax = if xi >= 0 { xi } else { -xi };
    assert(ax * ax == xi * xi) by (nonlinear_arith)
        requires
            ax == xi || ax == -xi,
    ;
    assert((ax * s) * (ax * s) <= n * (s * s)) by (nonlinear_arith)
        requires
            xi * xi <= n,
            ax * ax == xi * xi,
            s > 0,
    ;
    assert(ax * s <= l) by (nonlinear_arith)
        requires
            (ax * s) * (ax * s) <= n * (s * s),
            n * (s * s) < (l + 1) * (l + 1),
            l >= 0,
            ax >= 0,
            s > 0,
    ;
    assert(l > 0) by (nonlinear_arith)
        requires
            n > 0,
            n * (s * s) < (l + 1) * (l + 1),
            l >= 0,
            s == 65536,
    ;
    vstd::arithmetic::div_mod::lemma_div_by_multiple(s, l);
    assert(s * l == l * s && l * (-s) == -(s * l)) by (nonlinear_arith);
    vstd::arithmetic::div_mod::lemma_fundamental_div_mod_converse(-(s * l), l, -s, 0);
    assert(-(s * l) <= xi * (s * s) <= s * l) by (nonlinear_arith)
        requires
            ax * s <= l,
            ax == xi || ax == -xi,
            ax >= 0,
            s > 0,
    ;
    vstd::arithmetic::div_mod::lemma_div_is_ordered(xi * (s * s), s * l, l);
    vstd::arithmetic::div_mod::lemma_div_is_ordered(-(s * l), xi * (s * s), l);
}

/// Splits the floor division of `xi * ONE * ONE` by `l`, whose quotient is `ui`,
/// into `l * ui + rem`, and returns the cross term `ui * rem` and the square `rem * rem`.
proof fn lemma_unit_component_parts(xi: int, l: int, ui: int) -> (parts: (int, int))
    requires
        l >= ONE,
        ui == fdiv(xi * (ONE * ONE), l),
        -ONE <= ui <= ONE,
    ensures
        (xi * (ONE * ONE)) * (xi * (ONE * ONE)) == (l * l) * (ui * ui) + 2 * (l * parts.0)
            + parts.1,
        -(ONE * l) <= parts.0 <= ONE * l,
        0 <= parts.1 <= l * l,
{
    let p = xi * (ONE * ONE);
    let rem = p % l;
    vstd::arithmetic::div_mod::lemma_fundamental_div_mod(p, l);
    assert(0 <= rem < l);
    assert(p == l * ui + rem);
    assert(p * p == (l * l) * (ui * ui) + 2 * (l * (ui * rem)) + rem * rem) by (nonlinear_arith)
        requires
            p == l * ui + rem,
    ;
    assert(-(ONE * l) <= ui * rem <= ONE * l) by (nonlinear_arith)
        requires
            -ONE <= ui <= ONE,
            0 <= rem < l,
    ;
    assert(0 <= rem * rem <= l * l) by (nonlinear_arith)
        requires
            0 <= rem < l,
    ;
    (ui * rem, rem * rem)
}

/// The arithmetic behind the length of a unit vector: from
/// `l^2 q + 2 l w + r == m ONE^2` with `l^2 <= m < (l + 1)^2` and the bounds on
/// the rounding terms `w` and `r`, `q` is within `8 ONE` of `ONE^2`.
proof fn lemma_unit_length_from_parts(l: int, m: int, q: int, w: int, r: int)
    requires
        l >= ONE,
        (l * l) * q + 2 * (l * w) + r == m * (ONE * ONE),
        -3 * (ONE * l) <= w <= 3 * (ONE * l),
        0 <= r <= 3 * (l * l),
        l * l <= m,
        m < (l + 1) * (l + 1),
    ensures
        ONE * ONE - 6 * ONE - 3 <= q <= ONE * ONE + 8 * ONE,
{
    let a = l * l;
    let lw = l * w;
    assert(a > 0) by (nonlinear_arith)
        requires
            l >= ONE,
            a == l * l,
    ;
    assert(-3 * ONE * a <= lw <= 3 * ONE * a) by (nonlinear_arith)
        requires
            -3 * (ONE * l) <= w <= 3 * (ONE * l),
            l >= 0,
            a == l * l,
            lw == l * w,
    ;
    assert(m <= a + 2 * l) by (nonlinear_arith)
        requires
            m < (l + 1) * (l + 1),
            a == l * l,
    ;
    assert(ONE * l <= a) by (nonlinear_arith)
        requires
            l >= ONE,
            a == l * l,
    ;
    let k: int = 65536;
    assert(a * q <= a * (k * k + 8 * k) && a * q >= a * (k * k - 6 * k - 3)) by (nonlinear_arith)
        requires
            k == 65536,
            a * q + 2 * lw + r == m * (k * k),
            -3 * k * a <= lw <= 3 * k * a,
            0 <= r <= 3 * a,
            a <= m <= a + 2 * l,
            k * l <= a,
    ;
    assert(k * k - 6 * k - 3 <= q <= k * k + 8 * k) by (nonlinear_arith)
        requires
            a * q <= a * (k * k + 8 * k),
            a * q >= a * (k * k - 6 * k - 3),
            a > 0,
    ;
}

/// A unit component `ui`, scaled by `ONE * ONE` and divided by a length `l`
/// near `ONE * ONE`, moves by at most six.
proof fn lemma_component_stable(ui: int, l: int)
    requires
        -ONE <= ui <= ONE,
        ONE * ONE - 3 * ONE - 7 <= l < ONE * ONE + 4 * ONE,
    ensures
        -6 <= fdiv(ui * (ONE * ONE), l) - ui <= 6,
{
    let k: int = 65536;
    let a = ui * (k * k);
    let e = a - l * ui;
    assert(e == ui * (k * k - l)) by (nonlinear_arith)
        requires
            a == ui * (k * k),
            e == a - l * ui,
    ;
    assert(-6 * l <= e < 7 * l) by (nonlinear_arith)
        requires
            e == ui * (k * k - l),
            -k <= ui <= k,
            k * k - 3 * k - 7 <= l < k * k + 4 * k,
            k == 65536,
    ;
    let f = a / l;
    vstd::arithmetic::div_mod::lemma_fundamental_div_mod(a, l);
    assert(0 <= a % l < l);
    assert(-6 <= f - ui <= 6) by (nonlinear_arith)
        requires
            a == l * f + a % l,
            0 <= a % l < l,
            -6 * l <= a - l * ui < 7 * l,
            l > 0,
    ;
}

/// Multiplying by the fixed-point whole number `m` is exact.
proof fn lemma_scale_exact(x: int, m: int)
    ensures
        fmul(x, m * ONE) == m * x,
{
    assert(x * (m * ONE) == (m * x) * ONE) by (nonlinear_arith);
    vstd::arithmetic::div_mod::lemma_fundamental_div_mod_converse(x * (m * ONE), ONE as int, m * x, 0);
}

/// The component arithmetic behind scale invariance: `floor(m a / lm)` and
/// `floor(a / l)`, with `a = xi * ONE^2` and `lm` the fine length of the scaled
/// vector, differ by at most one.
proof fn lemma_component_scaled(xi: int, n: int, l: int, lm: int, m: int)
    requires
        xi * xi <= n,
        n > 0,
        m >= 1,
        crate::fixed::is_isqrt(l, n * (ONE * ONE)),
        crate::fixed::is_isqrt(lm, m * m * (n * (ONE * ONE))),
    ensures
        -1 <= fdiv(m * (xi * (ONE * ONE)), lm) - fdiv(xi * (ONE * ONE), l) <= 1,
{
    let k: int = 65536;
    let nn = n * (k * k);
    let a = xi * (k * k);
    assert(l >= k) by (nonlinear_arith)
        requires
            n >= 1,
            nn == n * (k * k),
            nn < (l + 1) * (l + 1),
            l >= 0,
            k == 65536,
    ;
    let ax = if xi >= 0 { xi } else { -xi };
    assert(ax * k <= l) by (nonlinear_arith)
        requires
            xi * xi <= n,
            ax == xi || ax == -xi,
            ax >= 0,
            nn == n * (k * k),
            nn < (l + 1) * (l + 1),
            l >= 0,
            k == 65536,
    ;
    assert(m * l <= lm) by (nonlinear_arith)
        requires
            l * l <= nn,
            m * m * nn < (lm + 1) * (lm + 1),
            lm >= 0,
            l >= 0,
            m >= 1,
    ;
    assert(lm < m * (l + 1)) by (nonlinear_arith)
        requires
            lm * lm <= m * m * nn,
            nn < (l + 1) * (l + 1),
            lm >= 0,
            l >= 0,
            m >= 1,
    ;
    let d = a * (m * l - lm);
    assert(-(l * lm) < d < l * lm) by (nonlinear_arith)
        requires
            d == a * (m * l - lm),
            a == xi * (k * k),
            ax == xi || ax == -xi,
            ax >= 0,
            ax * k <= l,
            m * l <= lm < m * (l + 1),
            l >= k,
            k == 65536,
    ;
    let f1 = a / l;
    let f2 = (m * a) / lm;
    vstd::arithmetic::div_mod::lemma_fundamental_div_mod(a, l);
    vstd::arithmetic::div_mod::lemma_fundamental_div_mod(m * a, lm);
    assert(0 <= a % l < l);
    assert(0 <= (m * a) % lm < lm);
    assert(l * f1 <= a < l * (f1 + 1)) by (nonlinear_arith)
        requires
            a == l * f1 + a % l,
            0 <= a % l < l,
    ;
    assert(lm * f2 <= m * a < lm * (f2 + 1)) by (nonlinear_arith)
        requires
            m * a == lm * f2 + (m * a) % lm,
            0 <= (m * a) % lm < lm,
    ;
    assert((m * a) * l == a * lm + d) by (nonlinear_arith)
        requires
            d == a * (m * l - lm),
    ;
    assert(m * a < lm * (f1 + 2)) by (nonlinear_arith)
        requires
            (m * a) * l == a * lm + d,
            d < l * lm,
            a < l * (f1 + 1),
            lm > 0,
            l > 0,
    ;
    assert(m * a >= lm * (f1 - 1)) by (nonlinear_arith)
        requires
            (m * a) * l == a * lm + d,
            d > -(l * lm),
            l * f1 <= a,
            lm > 0,
            l > 0,
    ;
    assert(-1 <= f2 - f1 <= 1) by (nonlinear_arith)
        requires
            lm * f2 <= m * a < lm * (f2 + 1),
            m * a < lm * (f1 + 2),
            m * a >= lm * (f1 - 1),
            lm > 0,
    ;
}

/// A dot product of two vectors scaled by `k` is `k^2` times the dot product.
proof fn lemma_scaled_dot(k: int, c1: int, c2: int, c3: int, a1: int, a2: int, a3: int)
    ensures
        (k * c1) * (k * a1) + (k * c2) * (k * a2) + (k * c3) * (k * a3) == (k * k) * (c1 * a1 + c2
            * a2 + c3 * a3),
{
    assert((k * c1) * (k * a1) == (k * k) * (c1 * a1)) by (nonlinear_arith);
    assert((k * c2) * (k * a2) == (k * k) * (c2 * a2)) by (nonlinear_arith);
    assert((k * c3) * (k * a3) == (k * k) * (c3 * a3)) by (nonlinear_arith);
    assert((k * k) * (c1 * a1) + (k * k) * (c2 * a2) + (k * k) * (c3 * a3) == (k * k) * (c1 * a1
        + c2 * a2 + c3 * a3)) by (nonlinear_arith);
}

/// A product of two coordinates fits in 63 bits.
proof fn lemma_raw_product_bound(a: int, b: int)
    requires
        -0x8000_0000 <= a < 0x8000_0000,
        -0x8000_0000 <= b < 0x8000_0000,
    ensures
        -0x4000_0000_0000_0000 <= a * b <= 0x4000_0000_0000_0000,
{
    assert(-0x4000_0000_0000_0000 <= a * b <= 0x4000_0000_0000_0000) by (nonlinear_arith)
        requires
            -0x8000_0000 <= a < 0x8000_0000,
            -0x8000_0000 <= b < 0x8000_0000,
    ;
}

} // verus!
