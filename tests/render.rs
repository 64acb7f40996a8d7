use rand::rngs::StdRng;
use rand::SeedableRng;
use raytrace::camera::Camera;
use raytrace::fixed::{HALF, ONE};
use raytrace::ray::Ray;
use raytrace::render::{pixel_bytes, pixel_color, ray_color, render_image, sky, SKY_GREEN};
use raytrace::sampling::{keeps_candidate, rand_fraction, rand_in_range};
use raytrace::scene::CollisionList;
use raytrace::sphere::Sphere;
use raytrace::vector::Vec3;

const ONE32: i32 = ONE as i32;
const HALF32: i32 = HALF as i32;

fn two_sphere_world() -> CollisionList<Sphere> {
    let mut world = CollisionList::new();
    world.push(Sphere::new(Vec3::new(0, 0, -ONE32), HALF32));
    world.push(Sphere::new(Vec3::new(0, -100 * ONE32 - HALF32, -ONE32), 100 * ONE32));
    world
}

#[test]
fn miss_returns_sky_gradient() {
    let world: CollisionList<Sphere> = CollisionList::new();
    let mut rng = StdRng::seed_from_u64(1);
    let up = Ray::new(Vec3::zero(), Vec3::new(0, 3 * ONE32, 0));
    assert_eq!(ray_color(&up, &world, 50, &mut rng), Vec3::new(HALF32, SKY_GREEN, ONE32));
    let down = Ray::new(Vec3::zero(), Vec3::new(0, -ONE32, 0));
    assert_eq!(ray_color(&down, &world, 50, &mut rng), Vec3::new(ONE32, ONE32, ONE32));
    let level = Ray::new(Vec3::zero(), Vec3::new(ONE32, 0, 0));
    assert_eq!(ray_color(&level, &world, 50, &mut rng), Vec3::new(49152, 55705, ONE32));
}

#[test]
fn miss_is_reproducible() {
    let world = two_sphere_world();
    let up = Ray::new(Vec3::zero(), Vec3::new(123, 4 * ONE32, -77));
    let mut a = StdRng::seed_from_u64(1);
    let mut b = StdRng::seed_from_u64(999);
    let ca = ray_color(&up, &world, 10, &mut a);
    let cb = ray_color(&up, &world, 10, &mut b);
    assert_eq!(ca, cb);
    assert_eq!(ca, sky(&up));
}

#[test]
fn depth_zero_is_black() {
    let world = two_sphere_world();
    let mut rng = StdRng::seed_from_u64(3);
    for dir in [Vec3::new(0, 0, -ONE32), Vec3::new(0, ONE32, 0), Vec3::new(0, -ONE32, 0)] {
        let r = Ray::new(Vec3::zero(), dir);
        assert_eq!(ray_color(&r, &world, 0, &mut rng), Vec3::zero());
    }
}

#[test]
fn hit_is_darker_than_sky() {
    let world = two_sphere_world();
    let mut rng = StdRng::seed_from_u64(5);
    let r = Ray::new(Vec3::zero(), Vec3::new(0, 0, -ONE32));
    for _ in 0..50 {
        let c = ray_color(&r, &world, 10, &mut rng);
        assert!(0 <= c.x && c.x <= HALF32);
        assert!(0 <= c.y && c.y <= HALF32);
        assert!(0 <= c.z && c.z <= HALF32);
    }
}

#[test]
fn random_in_unit_sphere_stays_inside() {
    let mut rng = StdRng::seed_from_u64(11);
    for _ in 0..10000 {
        let p = Vec3::random_in_unit_sphere(&mut rng);
        assert!(p.len_squared() < ONE);
    }
}

#[test]
fn random_unit_vectors_have_length_one() {
    let mut rng = StdRng::seed_from_u64(12);
    for _ in 0..1000 {
        let u = Vec3::random_unit_vector(&mut rng);
        assert!((u.len() - ONE).abs() <= 4 || u == Vec3::zero());
    }
}

#[test]
fn random_ranges() {
    let mut rng = StdRng::seed_from_u64(13);
    for _ in 0..1000 {
        let x = rand_in_range(&mut rng, -5, 5);
        assert!(-5 <= x && x < 5);
        let f = rand_fraction(&mut rng);
        assert!(0 <= f && f < ONE);
        let p = Vec3::random_in(&mut rng, -3, 4);
        assert!(-3 <= p.x && p.x < 4 && -3 <= p.y && p.y < 4 && -3 <= p.z && p.z < 4);
    }
    assert_eq!(rand_in_range(&mut rng, 9, 10), 9);
}

#[test]
fn pixel_bytes_values() {
    assert_eq!(pixel_bytes(&Vec3::zero(), 10), (0, 0, 0));
    assert_eq!(pixel_bytes(&Vec3::new(10 * ONE32, 10 * ONE32 / 4, -5), 10), (255, 128, 0));
    assert_eq!(pixel_bytes(&Vec3::new(ONE32, HALF32, ONE32 / 100), 1), (255, 181, 25));
}

#[test]
fn pixel_color_sums_samples() {
    let world: CollisionList<Sphere> = CollisionList::new();
    let cam = Camera::new(116508, 2 * ONE32, ONE32);
    let mut rng = StdRng::seed_from_u64(17);
    assert_eq!(pixel_color(&cam, &world, 3, 4, 10, 10, 0, 5, &mut rng), Vec3::zero());
    let c = pixel_color(&cam, &world, 3, 4, 10, 10, 10, 5, &mut rng);
    assert!(0 <= c.x && c.x <= 10 * ONE32);
    assert_eq!(c.z, 10 * ONE32);
}

#[test]
fn render_is_reproducible_for_a_seed() {
    let world = two_sphere_world();
    let cam = Camera::new(116508, 2 * ONE32, ONE32);
    let mut a = StdRng::seed_from_u64(2024);
    let mut b = StdRng::seed_from_u64(2024);
    let first = render_image(&cam, &world, 40, 22, 10, 10, &mut a);
    let second = render_image(&cam, &world, 40, 22, 10, 10, &mut b);
    assert_eq!(first.len(), 40 * 22);
    assert_eq!(first, second);
    let checksum: u64 = first
        .iter()
        .enumerate()
        .map(|(k, p)| (k as u64 + 1) * (p.0 as u64 + 3 * p.1 as u64 + 7 * p.2 as u64))
        .sum();
    assert_eq!(checksum, 765902164);
    assert_eq!(first[0].2, 255);
    assert!(first[0].0 < first[0].2);
}

#[test]
fn random_draws_vary() {
    let mut rng = StdRng::seed_from_u64(21);
    let mut low = 0;
    let mut high = 0;
    for _ in 0..1000 {
        if rand_fraction(&mut rng) < HALF {
            low += 1;
        } else {
            high += 1;
        }
    }
    assert!(low > 100 && high > 100);
    let a = rand_in_range(&mut rng, -1000, 1000);
    let distinct = (0..50).any(|_| rand_in_range(&mut rng, -1000, 1000) != a);
    assert!(distinct);
    let p = Vec3::random_in_unit_sphere(&mut rng);
    let q = Vec3::random_in_unit_sphere(&mut rng);
    assert_ne!(p, q);
}

#[test]
fn ray_color_against_a_single_sphere() {
    let ball = Sphere::new(Vec3::new(0, 0, -ONE32), HALF32);
    let mut rng = StdRng::seed_from_u64(23);
    let away = Ray::new(Vec3::zero(), Vec3::new(0, 0, ONE32));
    assert_eq!(ray_color(&away, &ball, 5, &mut rng), sky(&away));
    let at = Ray::new(Vec3::zero(), Vec3::new(0, 0, -ONE32));
    let c = ray_color(&at, &ball, 1, &mut rng);
    assert_eq!(c, Vec3::zero());
    let c = ray_color(&at, &ball, 2, &mut rng);
    assert!(c.x <= HALF32 && c.y <= HALF32 && c.z <= HALF32);
    assert!(c.z > 0);
}

#[test]
fn random_unit_vectors_are_never_zero() {
    let mut rng = StdRng::seed_from_u64(29);
    for _ in 0..2000 {
        let u = Vec3::random_unit_vector(&mut rng);
        let sq = u.x as i64 * u.x as i64 + u.y as i64 * u.y as i64 + u.z as i64 * u.z as i64;
        assert!(ONE * ONE - 6 * ONE - 3 <= sq && sq <= ONE * ONE + 8 * ONE);
    }
}

#[test]
fn rejection_step_values() {
    assert!(keeps_candidate(&Vec3::zero()));
    assert!(keeps_candidate(&Vec3::new(1, 0, 0)));
    assert!(keeps_candidate(&Vec3::new(HALF32, HALF32, HALF32)));
    assert!(!keeps_candidate(&Vec3::new(ONE32, 0, 0)));
    assert!(!keeps_candidate(&Vec3::new(-ONE32 + 1, -ONE32 + 1, 0)));
}

#[test]
fn miss_and_depth_zero_leave_the_generator_alone() {
    let world = two_sphere_world();
    let up = Ray::new(Vec3::zero(), Vec3::new(0, ONE32, 0));
    let mut a = StdRng::seed_from_u64(31);
    let mut b = StdRng::seed_from_u64(31);
    ray_color(&up, &world, 10, &mut a);
    ray_color(&Ray::new(Vec3::zero(), Vec3::new(0, 0, -ONE32)), &world, 0, &mut a);
    assert_eq!(rand_fraction(&mut a), rand_fraction(&mut b));
}
