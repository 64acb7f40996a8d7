//! The path integrator and the per-pixel sampling around it.
use rand::rngs::StdRng;
use vstd::prelude::*;

use crate::camera::Camera;
use crate::fixed::{div_floor, fmul, isqrt, mul_scalar, sqrt_floor, HALF, ONE};
use crate::hit::{HitRecord, Solid};
use crate::ray::Ray;
use crate::sampling::{in_unit_sphere, rand_fraction, unit_direction};
use crate::vector::{Color, Vec3};

verus! {

/// The smallest ray parameter that counts as a hit (about 0.001): a bounced ray
/// must not meet the surface it leaves.
pub const T_MIN: i64 = 66;

/// The largest ray parameter: no upper bound on a hit.
pub const T_INFINITY: i64 = 0x7fff_ffff_ffff_ffff;

/// The green channel of the sky colour (0.7).
pub const SKY_GREEN: i32 = 45875;

/// The largest channel value before conversion to a byte (0.999).
pub const CHANNEL_MAX: i64 = 65470;

/// Each channel lies in `[0, 1]`.
pub open spec fn in_color_range(c: Color) -> bool {
    0 <= c.x <= ONE && 0 <= c.y <= ONE && 0 <= c.z <= ONE
}

/// Black: no light.
pub open spec fn black() -> Color {
    Vec3 { x: 0, y: 0, z: 0 }
}

/// How far up the sky a direction points: `0.5 * (unit(direction).y + 1)`.
pub open spec fn sky_blend(ray: Ray) -> int {
    fmul(HALF as int, ray.direction.unit_spec().y + ONE)
}

/// The background: white at the bottom blended linearly into sky blue `(0.5, 0.7, 1)` at the top.
pub open spec fn sky_color(ray: Ray) -> Color {
    let pos = sky_blend(ray);
    Vec3 { x: ONE as i32, y: ONE as i32, z: ONE as i32 }.scale_spec(ONE - pos).add_spec(
        Vec3 { x: HALF as i32, y: SKY_GREEN, z: ONE as i32 }.scale_spec(pos),
    )
}

/// The colour of the background seen along `ray`.
pub fn sky(ray: &Ray) -> (r: Color)
    ensures
        r == sky_color(*ray),
        in_color_range(r),
{
    let direction = ray.direction.unit_vector();
    proof {
        ray.direction.lemma_unit_components_bounded();
    }
    let pos: i64 = div_floor(mul_scalar(HALF as i32, direction.y as i64 + ONE), ONE as i128) as i64;
    proof {
        lemma_fraction(HALF as int, direction.y + ONE);
    }
    let white = Vec3::new(ONE as i32, ONE as i32, ONE as i32).mul_by(ONE - pos);
    let blue = Vec3::new(HALF as i32, SKY_GREEN, ONE as i32).mul_by(pos);
    proof {
        lemma_fraction(ONE as int, ONE - pos);
        lemma_one_times(ONE - pos);
        lemma_fraction(HALF as int, pos as int);
        lemma_fraction(SKY_GREEN as int, pos as int);
        lemma_fraction(ONE as int, pos as int);
    }
    white.add(&blue)
}

/// `fmul(c, p)` of a fraction `c` in `[0, 1]` and `p` in `[0, 2]` lies in `[0, p]`.
proof fn lemma_fraction(c: int, p: int)
    requires
        0 <= c <= ONE,
        0 <= p <= 2 * ONE,
    ensures
        0 <= fmul(c, p) <= p,
{
    assert(0 <= c * p <= ONE * p) by (nonlinear_arith)
        requires
            0 <= c <= ONE,
            0 <= p,
    ;
    vstd::arithmetic::div_mod::lemma_div_pos_is_pos(c * p, ONE as int);
    vstd::arithmetic::div_mod::lemma_div_is_ordered(c * p, ONE * p, ONE as int);
    vstd::arithmetic::div_mod::lemma_div_by_multiple(p, ONE as int);
}

/// Multiplying by one is exact.
proof fn lemma_one_times(p: int)
    ensures
        fmul(ONE as int, p) == p,
{
    assert(ONE * p == p * ONE);
    vstd::arithmetic::div_mod::lemma_fundamental_div_mod_converse(ONE * p, ONE as int, p, 0);
}

/// Halving a colour keeps it in range.
proof fn lemma_half_in_range(c: Color)
    requires
        in_color_range(c),
    ensures
        in_color_range(c.scale_spec(HALF as int)),
{
    lemma_fraction(HALF as int, c.x as int);
    lemma_fraction(HALF as int, c.y as int);
    lemma_fraction(HALF as int, c.z as int);
    assert(HALF * c.x == c.x * HALF && HALF * c.y == c.y * HALF && HALF * c.z == c.z * HALF);
}

/// The ray that leaves a hit towards the tip of the normal moved by `offset`.
pub open spec fn bounce_ray(h: HitRecord, offset: Vec3) -> Ray {
    Ray { origin: h.point, direction: h.point.add_spec(h.normal).add_spec(offset).sub_spec(h.point) }
}

/// `u` is what `random_unit_vector` can return: the direction of a point of
/// the unit sphere.
pub open spec fn is_random_unit(u: Vec3) -> bool {
    exists|p: Vec3| in_unit_sphere(p) && u == unit_direction(p)
}

/// `c` is a colour that tracing `ray` through `world` with `depth` bounces can
/// give: black with no bounce left, the sky on a miss, and on a hit half of a
/// colour traced along a bounce towards the normal's tip moved by a unit vector
/// of some point inside the unit sphere.
pub open spec fn traced_color<W: Solid>(ray: Ray, world: &W, depth: nat, c: Color) -> bool
    decreases depth,
{
    if depth == 0 {
        c == black()
    } else {
        match world.hits(ray, T_MIN as int, T_INFINITY as int) {
            None => c == sky_color(ray),
            Some(h) => exists|u: Vec3, b: Color|
                #![trigger is_random_unit(u), b.scale_spec(HALF as int)]
                is_random_unit(u) && traced_color(bounce_ray(h, u), world, (depth - 1) as nat, b)
                    && c == b.scale_spec(HALF as int),
        }
    }
}

/// Half of a colour traced along a bounce is a colour traced along the ray that hit.
proof fn lemma_traced_bounce<W: Solid>(ray: Ray, world: &W, depth: nat, h: HitRecord, u: Vec3, b: Color)
    requires
        depth > 0,
        world.hits(ray, T_MIN as int, T_INFINITY as int) == Some(h),
        is_random_unit(u),
        traced_color(bounce_ray(h, u), world, (depth - 1) as nat, b),
    ensures
        traced_color(ray, world, depth, b.scale_spec(HALF as int)),
{
}

/// The colour seen along `ray`, following at most `depth` diffuse bounces.
///
/// With no bounce left the ray brings no light; a ray that meets nothing in
/// `(T_MIN, T_INFINITY)` sees the sky; a ray that meets a surface bounces
/// towards a random point of the unit sphere around the tip of the normal and
/// brings back half of what the bounced ray sees.
pub fn ray_color<W: Solid>(ray: &Ray, world: &W, depth: u32, rng: &mut StdRng) -> (r: Color)
    ensures
        in_color_range(r),
        depth == 0 ==> r == black(),
        depth > 0 && world.hits(*ray, T_MIN as int, T_INFINITY as int) is None ==> r
            == sky_color(*ray),
        traced_color(*ray, world, depth as nat, r),
        depth == 0 ==> *final(rng) == *old(rng),
        depth > 0 && world.hits(*ray, T_MIN as int, T_INFINITY as int) is None ==> *final(rng)
            == *old(rng),
    decreases depth,
{
    if depth == 0 {
        return Vec3::zero();
    }
    match world.hit(ray, T_MIN, T_INFINITY) {
        Some(record) => {
            let offset = Vec3::random_unit_vector(rng);
            let target = record.point.add(&record.normal).add(&offset);
            let bounced = Ray::new(record.point, target.sub(&record.point));
            assert(bounced == bounce_ray(record, offset));
            let c = ray_color(&bounced, world, depth - 1, rng);
            proof {
                lemma_half_in_range(c);
                lemma_traced_bounce(*ray, world, depth as nat, record, offset, c);
            }
            c.mul_by(HALF)
        },
        None => sky(ray),
    }
}

/// The ray through the point `(i + du, j + dv)` of the image plane, where
/// `du` and `dv` are fixed-point offsets within the pixel.
pub open spec fn sample_ray(camera: Camera, i: int, j: int, width: int, height: int, du: int, dv: int) -> Ray {
    Ray {
        origin: camera.origin_spec(),
        direction: camera.direction_spec((i * ONE + du) / (width - 1), (j * ONE + dv) / (height - 1)),
    }
}

/// `c` is a colour traced along a ray through some point of pixel `(i, j)`.
pub open spec fn pixel_sample<W: Solid>(
    camera: Camera,
    world: &W,
    i: int,
    j: int,
    width: int,
    height: int,
    depth: nat,
    c: Color,
) -> bool {
    exists|du: int, dv: int|
        0 <= du < ONE && 0 <= dv < ONE && traced_color(
            #[trigger] sample_ray(camera, i, j, width, height, du, dv),
            world,
            depth,
            c,
        )
}

/// The channel-wise sum of a sequence of colours.
pub open spec fn sum_colors(cs: Seq<Color>) -> Color
    decreases cs.len(),
{
    if cs.len() == 0 {
        black()
    } else {
        sum_colors(cs.drop_last()).add_spec(cs.last())
    }
}

/// The sum of `samples` colour samples for pixel `(i, j)` of a `width` by
/// `height` image, where `(0, 0)` is the lower-left pixel. Each sample follows a
/// ray through a random point of the pixel, with at most `depth` bounces.
pub fn pixel_color<W: Solid>(
    camera: &Camera,
    world: &W,
    i: u32,
    j: u32,
    width: u32,
    height: u32,
    samples: u32,
    depth: u32,
    rng: &mut StdRng,
) -> (r: Color)
    requires
        2 <= width,
        2 <= height,
        i < width,
        j < height,
        samples <= 32767,
    ensures
        0 <= r.x <= samples * ONE,
        0 <= r.y <= samples * ONE,
        0 <= r.z <= samples * ONE,
        samples == 0 ==> r == black(),
        exists|cs: Seq<Color>|
            cs.len() == samples && r == sum_colors(cs) && forall|k: int|
                0 <= k < cs.len() ==> pixel_sample(
                    *camera,
                    world,
                    i as int,
                    j as int,
                    width as int,
                    height as int,
                    depth as nat,
                    #[trigger] cs[k],
                ),
{
    let mut sum = Vec3::zero();
    let mut n: u32 = 0;
    let ghost mut cs: Seq<Color> = Seq::empty();
    while n < samples
        invariant
            n <= samples <= 32767,
            cs.len() == n,
            sum == sum_colors(cs),
            forall|k: int|
                0 <= k < cs.len() ==> pixel_sample(
                    *camera,
                    world,
                    i as int,
                    j as int,
                    width as int,
                    height as int,
                    depth as nat,
                    #[trigger] cs[k],
                ),
            0 <= sum.x <= n * ONE,
            0 <= sum.y <= n * ONE,
            0 <= sum.z <= n * ONE,
            n == 0 ==> sum == black(),
            i < width,
            j < height,
            2 <= width,
            2 <= height,
        decreases samples - n,
    {
        let du = rand_fraction(rng);
        let dv = rand_fraction(rng);
        let u: i64 = (i as i64 * ONE + du) / (width as i64 - 1);
        let v: i64 = (j as i64 * ONE + dv) / (height as i64 - 1);
        let ray = camera.get_ray(u, v);
        assert(ray == sample_ray(*camera, i as int, j as int, width as int, height as int, du as int, dv as int));
        let c = ray_color(&ray, world, depth, rng);
        sum.add_assign(&c);
        proof {
            let old_cs = cs;
            cs = cs.push(c);
            assert(cs.drop_last() =~= old_cs);
            assert(pixel_sample(*camera, world, i as int, j as int, width as int, height as int, depth as nat, c));
            assert forall|k: int| 0 <= k < cs.len() implies pixel_sample(
                *camera,
                world,
                i as int,
                j as int,
                width as int,
                height as int,
                depth as nat,
                #[trigger] cs[k],
            ) by {
                if k < old_cs.len() {
                    assert(cs[k] == old_cs[k]);
                }
            }
        }
        n = n + 1;
    }
    sum
}

/// One channel of a pixel as a byte: the average of the summed samples,
/// gamma-corrected by a square root, clamped to `[0, 0.999]` and scaled to `[0, 256)`.
pub open spec fn channel_byte(sum: int, samples: int) -> int {
    let average = if sum <= 0 {
        0
    } else {
        sum / samples
    };
    let gamma = sqrt_floor(average * ONE);
    let clamped = if gamma > CHANNEL_MAX {
        CHANNEL_MAX as int
    } else {
        gamma
    };
    (256 * clamped) / (ONE as int)
}

/// One channel of a pixel as a byte; see `channel_byte`.
fn channel_to_byte(sum: i32, samples: u32) -> (r: u8)
    requires
        samples > 0,
    ensures
        r == channel_byte(sum as int, samples as int),
{
    let average: i64 = if sum <= 0 {
        0
    } else {
        sum as i64 / samples as i64
    };
    assert(0 <= average <= i32::MAX) by {
        if sum > 0 {
            vstd::arithmetic::div_mod::lemma_div_is_ordered_by_denominator(sum as int, 1, samples as int);
            vstd::arithmetic::div_mod::lemma_div_pos_is_pos(sum as int, samples as int);
        }
    }
    let gamma: u128 = isqrt(average as u128 * ONE as u128);
    let clamped: i64 = if gamma > CHANNEL_MAX as u128 {
        CHANNEL_MAX
    } else {
        gamma as i64
    };
    ((256 * clamped) / ONE) as u8
}

/// The bytes of a pixel from the sum of its `samples` colour samples.
pub fn pixel_bytes(sum: &Color, samples: u32) -> (r: (u8, u8, u8))
    requires
        samples > 0,
    ensures
        r.0 == channel_byte(sum.x as int, samples as int),
        r.1 == channel_byte(sum.y as int, samples as int),
        r.2 == channel_byte(sum.z as int, samples as int),
{
    (channel_to_byte(sum.x, samples), channel_to_byte(sum.y, samples), channel_to_byte(sum.z, samples))
}

/// The bytes that `pixel_bytes` gives for a sum of `samples` samples.
pub open spec fn bytes_of(sum: Color, samples: int) -> (u8, u8, u8) {
    (
        channel_byte(sum.x as int, samples) as u8,
        channel_byte(sum.y as int, samples) as u8,
        channel_byte(sum.z as int, samples) as u8,
    )
}

/// `px` is what rendering pixel `(i, j)` can give: the bytes of a sum of
/// `samples` colours, each traced through some point of that pixel.
pub open spec fn pixel_outcome<W: Solid>(
    camera: Camera,
    world: &W,
    i: int,
    j: int,
    width: int,
    height: int,
    samples: int,
    depth: nat,
    px: (u8, u8, u8),
) -> bool {
    exists|cs: Seq<Color>|
        cs.len() == samples && px == bytes_of(#[trigger] sum_colors(cs), samples) && forall|k: int|
            0 <= k < cs.len() ==> pixel_sample(camera, world, i, j, width, height, depth, #[trigger] cs[k])
}

/// Renders a `width` by `height` image: the bytes of each pixel, rows from the
/// top of the image down, pixels of a row from left to right, each pixel the
/// average of `samples` samples with at most `depth` bounces.
pub fn render_image<W: Solid>(
    camera: &Camera,
    world: &W,
    width: u32,
    height: u32,
    samples: u32,
    depth: u32,
    rng: &mut StdRng,
) -> (r: Vec<(u8, u8, u8)>)
    requires
        2 <= width,
        2 <= height,
        1 <= samples <= 32767,
        width * height <= usize::MAX,
    ensures
        r@.len() == width * height,
        forall|k: int|
            0 <= k < r@.len() ==> pixel_outcome(
                *camera,
                world,
                k % width as int,
                height - 1 - k / width as int,
                width as int,
                height as int,
                samples as int,
                depth as nat,
                #[trigger] r@[k],
            ),
{
    let mut pixels: Vec<(u8, u8, u8)> = Vec::new();
    let mut row: u32 = height;
    while row > 0
        invariant
            row <= height,
            pixels@.len() == (height - row) * width,
            forall|k: int|
                0 <= k < pixels@.len() ==> pixel_outcome(
                    *camera,
                    world,
                    k % width as int,
                    height - 1 - k / width as int,
                    width as int,
                    height as int,
                    samples as int,
                    depth as nat,
                    #[trigger] pixels@[k],
                ),
            2 <= width,
            2 <= height,
            1 <= samples <= 32767,
        decreases row,
    {
        row = row - 1;
        let mut i: u32 = 0;
        while i < width
            invariant
                row < height,
                i <= width,
                pixels@.len() == (height - row - 1) * width + i,
                forall|k: int|
                    0 <= k < pixels@.len() ==> pixel_outcome(
                        *camera,
                        world,
                        k % width as int,
                        height - 1 - k / width as int,
                        width as int,
                        height as int,
                        samples as int,
                        depth as nat,
                        #[trigger] pixels@[k],
                    ),
                2 <= width,
                2 <= height,
                1 <= samples <= 32767,
            decreases width - i,
        {
            let sum = pixel_color(camera, world, i, row, width, height, samples, depth, rng);
            let px = pixel_bytes(&sum, samples);
            let ghost at = pixels@.len() as int;
            proof {
                vstd::arithmetic::div_mod::lemma_fundamental_div_mod_converse(
                    at,
                    width as int,
                    (height - row - 1) as int,
                    i as int,
                );
                let cs = choose|cs: Seq<Color>|
                    cs.len() == samples && sum == sum_colors(cs) && forall|k: int|
                        0 <= k < cs.len() ==> pixel_sample(
                            *camera,
                            world,
                            i as int,
                            row as int,
                            width as int,
                            height as int,
                            depth as nat,
                            #[trigger] cs[k],
                        );
                assert(px == bytes_of(sum_colors(cs), samples as int));
            }
            let ghost before = pixels@;
            pixels.push(px);
            proof {
                assert forall|k: int| 0 <= k < pixels@.len() implies pixel_outcome(
                    *camera,
                    world,
                    k % width as int,
                    height - 1 - k / width as int,
                    width as int,
                    height as int,
                    samples as int,
                    depth as nat,
                    #[trigger] pixels@[k],
                ) by {
                    if k < at {
                        assert(pixels@[k] == before[k]);
                    }
                }
            }
            i = i + 1;
        }
        assert((height - row - 1) * width + width == (height - row) * width) by (nonlinear_arith);
    }
    assert(height * width == width * height) by (nonlinear_arith);
    pixels
}

} // verus!
