//! Random numbers and random vectors, drawn from a seedable generator.
use rand::Rng;
use rand::rngs::StdRng;
use vstd::prelude::*;

use crate::fixed::{HALF, ONE};
use crate::vector::Vec3;

verus! {

#[verifier::external_type_specification]
#[verifier::external_body]
pub struct ExStdRng(StdRng);

/// How many candidates `random_in_unit_sphere` draws before it settles for the centre.
pub const UNIT_SPHERE_TRIES: u32 = 64;

/// Relies on rand's `Rng::gen_range` on `low..high` for `i64`: a value in
/// `[low, high)`. It panics on an empty range, which `requires` leaves out.
#[verifier::external_body]
fn gen_range(rng: &mut StdRng, low: i64, high: i64) -> (r: i64)
    requires
        low < high,
    ensures
        low <= r < high,
{
    rng.gen_range(low..high)
}

/// A random fixed-point number in `[low, high)`.
pub fn rand_in_range(rng: &mut StdRng, low: i64, high: i64) -> (r: i64)
    requires
        low < high,
    ensures
        low <= r < high,
{
    gen_range(rng, low, high)
}

/// A random fixed-point number in `[0, 1)`.
pub fn rand_fraction(rng: &mut StdRng) -> (r: i64)
    ensures
        0 <= r < ONE,
{
    gen_range(rng, 0, ONE)
}

/// The vector lies strictly inside the unit sphere.
pub open spec fn in_unit_sphere(v: Vec3) -> bool {
    v.len_squared_spec() < ONE
}

/// A candidate of rejection sampling: a point of the cube `[-1, 1)^3`.
pub open spec fn in_cube(v: Vec3) -> bool {
    -ONE <= v.x < ONE && -ONE <= v.y < ONE && -ONE <= v.z < ONE
}

/// What `random_in_unit_sphere` returns after drawing the candidates `cs`: the
/// last one, the first kept by `keeps_candidate`; or, when all
/// `UNIT_SPHERE_TRIES` of them are rejected, the point `(0.5, 0, 0)`.
pub open spec fn rejection_outcome(cs: Seq<Vec3>, r: Vec3) -> bool {
    &&& 1 <= cs.len() <= UNIT_SPHERE_TRIES
    &&& forall|i: int| 0 <= i < cs.len() ==> in_cube(#[trigger] cs[i])
    &&& forall|i: int| 0 <= i < cs.len() - 1 ==> !in_unit_sphere(#[trigger] cs[i])
    &&& if in_unit_sphere(cs.last()) {
        r == cs.last()
    } else {
        cs.len() == UNIT_SPHERE_TRIES && r == (Vec3 { x: HALF as i32, y: 0, z: 0 })
    }
}

/// The rejection step: whether a drawn candidate is kept.
pub fn keeps_candidate(p: &Vec3) -> (r: bool)
    ensures
        r == in_unit_sphere(*p),
{
    p.len_squared() < ONE
}

/// The direction `random_unit_vector` takes from a point of the unit sphere:
/// its unit vector, or the `x` axis for the centre, which has no direction.
pub open spec fn unit_direction(p: Vec3) -> Vec3 {
    if p.sum_sq() == 0 {
        Vec3 { x: ONE as i32, y: 0, z: 0 }
    } else {
        p.unit_spec()
    }
}

impl Vec3 {
    /// A vector whose components are random in `[0, 1)`.
    pub fn random(rng: &mut StdRng) -> (r: Vec3)
        ensures
            0 <= r.x < ONE,
            0 <= r.y < ONE,
            0 <= r.z < ONE,
    {
        let x = rand_fraction(rng);
        let y = rand_fraction(rng);
        let z = rand_fraction(rng);
        Vec3 { x: x as i32, y: y as i32, z: z as i32 }
    }

    /// A vector whose components are random in `[low, high)`.
    pub fn random_in(rng: &mut StdRng, low: i32, high: i32) -> (r: Vec3)
        requires
            low < high,
        ensures
            low <= r.x < high,
            low <= r.y < high,
            low <= r.z < high,
    {
        let x = rand_in_range(rng, low as i64, high as i64);
        let y = rand_in_range(rng, low as i64, high as i64);
        let z = rand_in_range(rng, low as i64, high as i64);
        Vec3 { x: x as i32, y: y as i32, z: z as i32 }
    }

    /// A random point strictly inside the unit sphere, found by rejection from
    /// the cube `[-1, 1)^3`: the first drawn candidate that `keeps_candidate`
    /// accepts. The loop must end, so after `UNIT_SPHERE_TRIES` rejected
    /// candidates (an event of probability below `2^-60`) it returns `(0.5, 0, 0)`.
    pub fn random_in_unit_sphere(rng: &mut StdRng) -> (r: Vec3)
        ensures
            in_unit_sphere(r),
            -ONE <= r.x < ONE,
            -ONE <= r.y < ONE,
            -ONE <= r.z < ONE,
            exists|cs: Seq<Vec3>| rejection_outcome(cs, r),
    {
        let mut tries: u32 = 0;
        let ghost mut cs: Seq<Vec3> = Seq::empty();
        while tries < UNIT_SPHERE_TRIES
            invariant
                cs.len() == tries <= UNIT_SPHERE_TRIES,
                forall|i: int| 0 <= i < cs.len() ==> in_cube(#[trigger] cs[i]),
                forall|i: int| 0 <= i < cs.len() ==> !in_unit_sphere(#[trigger] cs[i]),
            decreases UNIT_SPHERE_TRIES - tries,
        {
            let p = Vec3::random_in(rng, -ONE as i32, ONE as i32);
            let ghost before = cs;
            proof {
                cs = cs.push(p);
                assert forall|i: int| 0 <= i < cs.len() - 1 implies cs[i] == before[i] by {}
            }
            if keeps_candidate(&p) {
                assert(rejection_outcome(cs, p));
                return p;
            }
            tries = tries + 1;
        }
        let r = Vec3::new(HALF as i32, 0, 0);
        assert(r.raw_dot(r) == HALF * HALF);
        assert(r.len_squared_spec() == 16384);
        assert(rejection_outcome(cs, r));
        r
    }

    /// A random vector of length one: the direction of a random point of the
    /// unit sphere (see `unit_direction`).
    pub fn random_unit_vector(rng: &mut StdRng) -> (r: Vec3)
        ensures
            exists|p: Vec3| in_unit_sphere(p) && r == unit_direction(p),
            ONE * ONE - 6 * ONE - 3 <= r.sum_sq() <= ONE * ONE + 8 * ONE,
    {
        let p = Vec3::random_in_unit_sphere(rng);
        proof {
            p.lemma_sum_sq_zero();
        }
        if p.x == 0 && p.y == 0 && p.z == 0 {
            let r = Vec3::new(ONE as i32, 0, 0);
            assert(r.sum_sq() == ONE * ONE);
            return r;
        }
        proof {
            p.lemma_unit_vector_length();
        }
        p.unit_vector()
    }
}

} // verus!
