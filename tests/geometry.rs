use rand::rngs::StdRng;
use rand::SeedableRng;
use raytrace::camera::Camera;
use raytrace::fixed::{isqrt, HALF, ONE};
use raytrace::hit::HitRecord;
use raytrace::ray::Ray;
use raytrace::scene::CollisionList;
use raytrace::sphere::Sphere;
use raytrace::vector::Vec3;

fn v(x: i32, y: i32, z: i32) -> Vec3 {
    Vec3::new(x, y, z)
}

const ONE32: i32 = ONE as i32;
const HALF32: i32 = HALF as i32;

#[test]
fn unit_vectors_have_length_one() {
    let cases = [
        v(3 * ONE32, 4 * ONE32, 0),
        v(1, 1, 0),
        v(-7, 13, 2),
        v(123456, -98765, 4321),
        v(i32::MAX, i32::MIN, i32::MAX),
        v(0, 0, -5),
    ];
    for c in cases.iter() {
        let u = c.unit_vector();
        let l = u.len();
        assert!((l - ONE).abs() <= 4, "length {} of unit({:?})", l, c);
    }
}

#[test]
fn unit_vector_exact_on_axis() {
    assert_eq!(v(0, 5 * ONE32, 0).unit_vector(), v(0, ONE32, 0));
    assert_eq!(v(3 * ONE32, 4 * ONE32, 0).unit_vector(), v(39321, 52428, 0));
}

#[test]
fn unit_vector_of_zero_is_zero() {
    assert_eq!(Vec3::zero().unit_vector(), Vec3::zero());
}

#[test]
fn vector_algebra_values() {
    let a = v(ONE32, 2 * ONE32, 3 * ONE32);
    let b = v(4 * ONE32, -5 * ONE32, 6 * ONE32);
    assert_eq!(a.add(&b), v(5 * ONE32, -3 * ONE32, 9 * ONE32));
    assert_eq!(a.sub(&b), v(-3 * ONE32, 7 * ONE32, -3 * ONE32));
    assert_eq!(a.neg(), v(-ONE32, -2 * ONE32, -3 * ONE32));
    assert_eq!(a.dot(&b), 12 * ONE);
    assert_eq!(a.cross(&b), v(27 * ONE32, 6 * ONE32, -13 * ONE32));
    assert_eq!(a.mul(&b), v(4 * ONE32, -10 * ONE32, 18 * ONE32));
    assert_eq!(a.mul_by(HALF), v(HALF32, ONE32, 3 * HALF32));
    assert_eq!(a.div(2 * ONE), v(HALF32, ONE32, 3 * HALF32));
    assert_eq!(a.len_squared(), 14 * ONE);
    assert_eq!(v(3 * ONE32, 4 * ONE32, 0).len(), 5 * ONE);
    assert_eq!(a.index(0), ONE32);
    assert_eq!(a.index(2), 3 * ONE32);
}

#[test]
fn vector_rounding_is_floor() {
    assert_eq!(v(-1, 1, 3).mul_by(HALF), v(-1, 0, 1));
    assert_eq!(v(-1, 1, 3).div(-2 * ONE), v(0, -1, -2));
}

#[test]
fn vector_saturates() {
    let big = v(i32::MAX, i32::MIN, 0);
    assert_eq!(big.add(&big), v(i32::MAX, -i32::MAX, 0));
    assert_eq!(big.neg(), v(-i32::MAX, i32::MAX, 0));
}

#[test]
fn vector_in_place_matches_pure() {
    let a = v(ONE32, -2 * ONE32, 77);
    let b = v(9, 8, -7);
    let mut m = a;
    m.add_assign(&b);
    assert_eq!(m, a.add(&b));
    let mut m = a;
    m.sub_assign(&b);
    assert_eq!(m, a.sub(&b));
    let mut m = a;
    m.mul_assign(3 * HALF);
    assert_eq!(m, a.mul_by(3 * HALF));
    let mut m = a;
    m.div_assign(-3 * ONE);
    assert_eq!(m, a.div(-3 * ONE));
    let mut m = a;
    m.set(1, 42);
    assert_eq!(m, v(ONE32, 42, 77));
}

#[test]
fn isqrt_values() {
    assert_eq!(isqrt(0), 0);
    assert_eq!(isqrt(15), 3);
    assert_eq!(isqrt(16), 4);
    assert_eq!(isqrt(u128::MAX), u64::MAX as u128);
}

#[test]
fn ray_at_values() {
    let r = Ray::new(v(ONE32, 0, 0), v(0, 2 * ONE32, -ONE32));
    assert_eq!(r.at(0), v(ONE32, 0, 0));
    assert_eq!(r.at(HALF), v(ONE32, ONE32, -HALF32));
    assert_eq!(r.at(-ONE), v(ONE32, -2 * ONE32, ONE32));
}

#[test]
fn sphere_hit_straight_ahead() {
    let s = Sphere::new(v(0, 0, -ONE32), HALF32);
    let r = Ray::new(Vec3::zero(), v(0, 0, -ONE32));
    let h = s.hit(&r, 0, i64::MAX).expect("the ray meets the sphere");
    assert_eq!(h.t, HALF);
    assert_eq!(h.point, v(0, 0, -HALF32));
    assert_eq!(h.normal, v(0, 0, ONE32));
    assert!(h.front_face);
}

#[test]
fn sphere_hit_from_inside_uses_far_root() {
    let s = Sphere::new(v(0, 0, -ONE32), HALF32);
    let r = Ray::new(v(0, 0, -ONE32), v(0, 0, -ONE32));
    let h = s.hit(&r, 0, i64::MAX).expect("the ray leaves the sphere");
    assert_eq!(h.t, HALF);
    assert_eq!(h.point, v(0, 0, -3 * HALF32));
    assert!(!h.front_face);
    assert_eq!(h.normal, v(0, 0, ONE32));
}

#[test]
fn sphere_hit_window_is_open() {
    let s = Sphere::new(v(0, 0, -ONE32), HALF32);
    let r = Ray::new(Vec3::zero(), v(0, 0, -ONE32));
    assert!(s.hit(&r, 0, HALF).is_some_and(|h| h.t == 3 * HALF) == false);
    assert!(s.hit(&r, 0, HALF).is_none());
    assert_eq!(s.hit(&r, HALF, i64::MAX).map(|h| h.t), Some(3 * HALF));
    assert!(s.hit(&r, 3 * HALF, i64::MAX).is_none());
}

#[test]
fn sphere_missed() {
    let s = Sphere::new(v(0, 0, -ONE32), HALF32);
    let r = Ray::new(Vec3::zero(), v(0, ONE32, 0));
    assert!(s.hit(&r, 0, i64::MAX).is_none());
    let behind = Ray::new(Vec3::zero(), v(0, 0, ONE32));
    assert!(s.hit(&behind, 0, i64::MAX).is_none());
}

#[test]
fn scene_returns_nearest_of_overlapping() {
    let near = Sphere::new(v(0, 0, -2 * ONE32), ONE32);
    let far = Sphere::new(v(0, 0, -3 * ONE32), ONE32);
    let r = Ray::new(Vec3::zero(), v(0, 0, -ONE32));
    for order in 0..2 {
        let mut world = CollisionList::new();
        if order == 0 {
            world.push(near);
            world.push(far);
        } else {
            world.push(far);
            world.push(near);
        }
        let h = world.hit(&r, 0, i64::MAX).expect("both spheres are hit");
        assert_eq!(h.t, ONE);
        assert_eq!(h.point, v(0, 0, -ONE32));
        assert_eq!(h.normal, v(0, 0, ONE32));
    }
}

#[test]
fn scene_empty_and_cleared() {
    let r = Ray::new(Vec3::zero(), v(0, 0, -ONE32));
    let mut world = CollisionList::new();
    assert!(world.hit(&r, 0, i64::MAX).is_none());
    world.push(Sphere::new(v(0, 0, -2 * ONE32), ONE32));
    assert_eq!(world.len(), 1);
    assert!(world.hit(&r, 0, i64::MAX).is_some());
    world.clear();
    assert_eq!(world.len(), 0);
    assert!(world.hit(&r, 0, i64::MAX).is_none());
}

#[test]
fn camera_rays() {
    let cam = Camera::new(116508, 2 * ONE32, ONE32);
    let corner = cam.get_ray(0, 0);
    assert_eq!(corner.origin, Vec3::zero());
    assert_eq!(corner.direction, v(-116508, -ONE32, -ONE32));
    let centre = cam.get_ray(HALF, HALF);
    assert_eq!(centre.direction, v(0, 0, -ONE32));
    let top_right = cam.get_ray(ONE, ONE);
    assert_eq!(top_right.direction, v(116508, ONE32, -ONE32));
}

#[test]
fn seeded_generator_reproduces() {
    let mut a = StdRng::seed_from_u64(7);
    let mut b = StdRng::seed_from_u64(7);
    for _ in 0..100 {
        assert_eq!(Vec3::random(&mut a), Vec3::random(&mut b));
    }
}

#[test]
fn nested_scenes_find_the_nearest() {
    let r = Ray::new(Vec3::zero(), v(0, 0, -ONE32));
    let mut far_group = CollisionList::new();
    far_group.push(Sphere::new(v(0, 0, -5 * ONE32), ONE32));
    far_group.push(Sphere::new(v(0, 0, -9 * ONE32), ONE32));
    let mut near_group = CollisionList::new();
    near_group.push(Sphere::new(v(0, 0, -3 * ONE32), ONE32));
    let mut world = CollisionList::new();
    world.push(far_group);
    world.push(near_group);
    let h = world.hit(&r, 0, i64::MAX).expect("the ray meets the nested spheres");
    assert_eq!(h.t, 2 * ONE);
    assert_eq!(h.point, v(0, 0, -2 * ONE32));
    assert!(world.hit(&r, 0, 2 * ONE).is_none());
    assert_eq!(world.hit(&r, 2 * ONE, i64::MAX).map(|h| h.t), Some(4 * ONE));
}

#[test]
fn stored_normal_never_points_along_the_ray() {
    let raw = |d: Vec3, n: Vec3| {
        d.x as i128 * n.x as i128 + d.y as i128 * n.y as i128 + d.z as i128 * n.z as i128
    };
    let r = Ray::new(Vec3::zero(), v(-1, i32::MIN, 0));
    let mut rec = HitRecord { point: Vec3::zero(), normal: Vec3::zero(), front_face: false, t: 0 };
    rec.set_face_norm(&r, v(-i32::MAX, 1, 0));
    assert!(rec.front_face);
    assert_eq!(rec.normal, v(-i32::MAX, 1, 0));
    assert!(raw(r.direction, rec.normal) <= 0);
    let back = Ray::new(Vec3::zero(), v(-1, 0, 0));
    rec.set_face_norm(&back, v(-i32::MAX, 0, 0));
    assert!(!rec.front_face);
    assert_eq!(rec.normal, v(i32::MAX, 0, 0));
    assert!(raw(back.direction, rec.normal) <= 0);
    let grazing = Ray::new(Vec3::zero(), v(0, ONE32, 0));
    rec.set_face_norm(&grazing, v(ONE32, 0, 0));
    assert!(!rec.front_face);
    assert_eq!(rec.normal, v(-ONE32, 0, 0));
}

#[test]
fn cross_of_whole_vectors_is_orthogonal() {
    let a = v(2 * ONE32, 3 * ONE32, 4 * ONE32);
    let b = v(5 * ONE32, -6 * ONE32, 7 * ONE32);
    let c = a.cross(&b);
    assert_eq!(c, v(45 * ONE32, 6 * ONE32, -27 * ONE32));
    assert_eq!(c.dot(&a), 0);
    assert_eq!(c.dot(&b), 0);
}

#[test]
fn normalising_twice_moves_little() {
    for c in [v(1, 1, 0), v(-7, 13, 2), v(123456, -98765, 4321), v(3 * ONE32, 4 * ONE32, 0)] {
        let u = c.unit_vector();
        let w = u.unit_vector();
        assert!((w.x - u.x).abs() <= 6 && (w.y - u.y).abs() <= 6 && (w.z - u.z).abs() <= 6);
    }
}

#[test]
fn sphere_hit_with_short_directions() {
    let s = Sphere::new(v(0, 0, -ONE32), HALF32);
    for len in [1i32, 100, 300, ONE32 / 2] {
        let r = Ray::new(Vec3::zero(), v(0, 0, -len));
        let h = s.hit(&r, 0, i64::MAX).expect("every non-zero direction can hit");
        assert_eq!(h.t, HALF * ONE / len as i64);
        assert!((h.point.z + HALF32).abs() <= 1, "point {:?} for length {}", h.point, len);
        assert_eq!(h.normal, v(0, 0, ONE32));
    }
    assert!(s.hit(&Ray::new(Vec3::zero(), Vec3::zero()), 0, i64::MAX).is_none());
}

#[test]
fn scaling_keeps_the_unit_vector() {
    for c in [v(1, 1, 0), v(-7, 13, 2), v(123456, -98765, 4321), v(3 * ONE32, 4 * ONE32, 0)] {
        for m in [2i64, 3, 10] {
            let u = c.unit_vector();
            let w = c.mul_by(m * ONE).unit_vector();
            assert!((w.x - u.x).abs() <= 1 && (w.y - u.y).abs() <= 1 && (w.z - u.z).abs() <= 1);
        }
    }
}
