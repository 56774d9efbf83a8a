//! A path tracer over saturating fixed-point arithmetic.
//!
//! A scene is a tree of [`hittable::Hittable`] objects: spheres, rectangles
//! and boxes, media, lists, and the bounding volume hierarchy that
//! [`hittable::BVH::new`] builds over a list.  [`ray_color`] follows a ray
//! through the scene, from surface to surface, and adds up the light that
//! comes back along it.
//!
//! Every number is a [`fixed::Fixed`], so that each result is an exact
//! function of its inputs and every operation is total.  Random numbers are
//! drawn from a [`random::RandomSource`] that the caller owns; what a
//! function returns after drawing is stated as the set of its possible
//! results.

pub mod fixed;
pub mod elementary;
pub mod random;
pub mod vec3;
pub mod ray;
pub mod bbox;
pub mod shared;
pub mod texture;
pub mod hittable;
pub mod material;
pub mod sphere;
pub mod rect;
pub mod aabox;
pub mod medium;
pub mod bvh;
pub mod nearest;
pub mod camera;

use vstd::prelude::*;
use crate::camera::Camera;
use crate::fixed::Fixed;
use crate::fixed::ONE_RAW;
use crate::hittable::HitRecord;
use crate::hittable::Hittable;
use crate::random::RandomSource;
use crate::ray::Ray;
use crate::vec3::Color;
use crate::vec3::Vec3;

verus! {

/// Raw parameter before which a hit is taken for the surface that the ray
/// has just left (about `0.0001`).
pub const SHADOW_EPSILON_RAW: i64 = 429496;

/// Raw representation of the farthest parameter at which a hit counts: the
/// largest number short of the one that stands for infinity.
pub const FAR_RAW: i64 = 0x7fff_ffff_ffff_fffe;

/// Raw representation of the factor from a channel in the unit interval to a
/// byte, `255.999`.
pub const BYTE_SCALE_RAW: i64 = 1099507332808;

/// The light that a surface sends back along a ray: what it emits, plus
/// what comes in along the scattered ray, filtered by the attenuation.
pub open spec fn shaded(emit: Color, scattered: Option<(Color, Ray)>, incoming: Color) -> Color {
    match scattered {
        Some((attenuation, _)) => emit.spec_add(incoming.spec_mul(attenuation)),
        None => emit,
    }
}

/// The color seen along a ray that got the answer `h` from the scene: the
/// background where it hit nothing, else [`shaded`] of what the surface
/// emits, of the answer `scattered` of its material and of the color
/// `incoming` along the scattered ray.
pub open spec fn seen(
    background: Color,
    h: Option<HitRecord>,
    scattered: Option<(Color, Ray)>,
    incoming: Color,
) -> Color {
    match h {
        None => background,
        Some(rec) => shaded(rec.material.spec_emitted(rec.u, rec.v, rec.p), scattered, incoming),
    }
}

/// `c` is a color that following `ray` through `world` for at most `depth`
/// bounces may give.  A path of no bounces gives black.  Else the color is
/// [`seen`] for an answer that the scene may give to the ray between
/// [`SHADOW_EPSILON_RAW`] and [`FAR_RAW`], for an answer that the material
/// of the surface may give, and for a color that the scattered ray may give
/// with one bounce less.
pub open spec fn may_return(
    world: Hittable,
    background: Color,
    ray: Ray,
    depth: nat,
    c: Color,
) -> bool
    decreases depth,
{
    if depth == 0 {
        c == Vec3::spec_zero()
    } else {
        exists|h: Option<HitRecord>, scattered: Option<(Color, Ray)>, incoming: Color|
            #![trigger seen(background, h, scattered, incoming)]
            {
                &&& world.may_hit(
                    ray,
                    Fixed { raw: SHADOW_EPSILON_RAW },
                    Fixed { raw: FAR_RAW },
                    h,
                )
                &&& h matches Some(rec) ==> rec.material.scatters_to(ray, rec, scattered)
                &&& scattered matches Some(s) ==> may_return(
                    world,
                    background,
                    s.1,
                    (depth - 1) as nat,
                    incoming,
                )
                &&& c == seen(background, h, scattered, incoming)
            }
    }
}

/// The color seen along `ray`: the light of the nearest surface that the
/// ray hits in `hittable`, followed over at most `depth` bounces, or the
/// background where it hits nothing.
pub fn ray_color(
    ray: &Ray,
    background_color: &Color,
    hittable: &Hittable,
    depth: usize,
    rng: &mut RandomSource,
) -> (r: Color)
    ensures
        depth == 0 ==> r == Vec3::spec_zero(),
        may_return(*hittable, *background_color, *ray, depth as nat, r),
    decreases depth,
{
    if depth == 0 {
        return Vec3::zero();
    }
    let found = hittable.hit(
        ray,
        Fixed::from_raw(SHADOW_EPSILON_RAW),
        Fixed::from_raw(FAR_RAW),
        rng,
    );
    let ghost answer = found;
    if let Some(h) = found {
        let emit = h.material.emitted(h.u, h.v, &h.p);
        let scattered = h.material.scatter(ray, &h, rng);
        if let Some((attenuation, next)) = scattered {
            let incoming = ray_color(&next, background_color, hittable, depth - 1, rng);
            let r = emit.add(incoming.mul(attenuation));
            assert(r == seen(*background_color, answer, scattered, incoming));
            r
        } else {
            assert(emit == seen(*background_color, answer, scattered, Vec3::spec_zero()));
            emit
        }
    } else {
        assert(*background_color == seen(
            *background_color,
            answer,
            None,
            Vec3::spec_zero(),
        ));
        *background_color
    }
}

/// A path of a single bounce sees what the surface emits and no more: the
/// scattered ray has no bounce left and brings black.
pub proof fn lemma_single_bounce(world: Hittable, background: Color, ray: Ray, c: Color)
    requires
        may_return(world, background, ray, 1, c),
    ensures
        exists|h: Option<HitRecord>|
            #![trigger world.may_hit(ray, Fixed { raw: SHADOW_EPSILON_RAW }, Fixed { raw: FAR_RAW }, h)]
            {
                &&& world.may_hit(
                    ray,
                    Fixed { raw: SHADOW_EPSILON_RAW },
                    Fixed { raw: FAR_RAW },
                    h,
                )
                &&& c == match h {
                    None => background,
                    Some(rec) => rec.material.spec_emitted(rec.u, rec.v, rec.p),
                }
            },
{
    let (h, scattered, incoming) = choose|
        h: Option<HitRecord>,
        scattered: Option<(Color, Ray)>,
        incoming: Color,
    |
        #![trigger seen(background, h, scattered, incoming)]
        {
            &&& world.may_hit(ray, Fixed { raw: SHADOW_EPSILON_RAW }, Fixed { raw: FAR_RAW }, h)
            &&& h matches Some(rec) ==> rec.material.scatters_to(ray, rec, scattered)
            &&& scattered matches Some(s) ==> may_return(world, background, s.1, 0, incoming)
            &&& c == seen(background, h, scattered, incoming)
        };
    if h is Some {
        if let Some((attenuation, _)) = scattered {
            assert(incoming == Vec3::spec_zero());
            lemma_zero_times(attenuation.x);
            lemma_zero_times(attenuation.y);
            lemma_zero_times(attenuation.z);
            assert(incoming.spec_mul(attenuation) == Vec3::spec_zero());
        }
    }
    assert(world.may_hit(ray, Fixed { raw: SHADOW_EPSILON_RAW }, Fixed { raw: FAR_RAW }, h));
}

/// Zero times any number is zero.
pub proof fn lemma_zero_times(a: Fixed)
    ensures
        (Fixed { raw: 0 }).spec_mul(a) == (Fixed { raw: 0 }),
{
    assert(0 * a.raw == 0) by (nonlinear_arith);
}

/// One channel of a pixel: the mean of the summed samples, gamma-corrected
/// by a square root, cut to the unit interval and scaled to a byte.
pub open spec fn spec_channel(sum: Fixed, samples_factor: Fixed) -> int {
    (Fixed { raw: BYTE_SCALE_RAW }).spec_mul(
        sum.spec_mul(samples_factor).spec_sqrt().spec_clamp(
            Fixed { raw: 0 },
            Fixed { raw: ONE_RAW },
        ),
    ).raw as int / (ONE_RAW as int)
}

fn channel(sum: Fixed, samples_factor: Fixed) -> (r: u8)
    ensures
        r == spec_channel(sum, samples_factor),
{
    let k = sum.mul(samples_factor).sqrt().clamp(Fixed::zero(), Fixed::one());
    let scaled = Fixed::from_raw(BYTE_SCALE_RAW).mul(k);
    assert(0 <= BYTE_SCALE_RAW * k.raw <= BYTE_SCALE_RAW * ONE_RAW) by (nonlinear_arith)
        requires
            0 <= k.raw <= ONE_RAW,
    ;
    assert(0 <= scaled.raw <= BYTE_SCALE_RAW);
    (scaled.raw / 0x1_0000_0000) as u8
}

/// The red, green and blue bytes of a pixel whose color is the sum of
/// `samplers_per_pixel` samples.
pub open spec fn spec_encode_color(color: Color, samplers_per_pixel: usize) -> (u8, u8, u8) {
    let factor = Fixed::spec_from_ratio(
        1,
        if samplers_per_pixel <= i64::MAX {
            samplers_per_pixel as i64
        } else {
            i64::MAX
        },
    );
    (
        spec_channel(color.x, factor) as u8,
        spec_channel(color.y, factor) as u8,
        spec_channel(color.z, factor) as u8,
    )
}

/// The red, green and blue bytes of a pixel whose color is the sum of
/// `samplers_per_pixel` samples.
pub fn encode_color(color: &Color, samplers_per_pixel: usize) -> (r: (u8, u8, u8))
    ensures
        r == spec_encode_color(*color, samplers_per_pixel),
{
    let wide: u64 = samplers_per_pixel as u64;
    let n: i64 = if wide <= 0x7fff_ffff_ffff_ffff {
        wide as i64
    } else {
        0x7fff_ffff_ffff_ffff
    };
    let factor = Fixed::from_ratio(1, n);
    (channel(color.x, factor), channel(color.y, factor), channel(color.z, factor))
}

/// The number `i` of a row or column as a fixed-point number.
pub open spec fn spec_index(i: usize) -> Fixed {
    Fixed::spec_from_int(if i <= i64::MAX { i as i64 } else { i64::MAX })
}

fn index(i: usize) -> (r: Fixed)
    ensures
        r == spec_index(i),
{
    let wide: u64 = i as u64;
    if wide <= 0x7fff_ffff_ffff_ffff {
        Fixed::from_int(wide as i64)
    } else {
        Fixed::from_int(0x7fff_ffff_ffff_ffff)
    }
}

/// Image coordinate of a point inside pixel `i` of `n`: the pixel's number
/// plus the offset `jitter` into the pixel, over `n - 1`.
pub open spec fn image_coordinate(i: usize, n: usize, jitter: Fixed) -> Fixed {
    spec_index(i).spec_add(jitter).spec_mul(
        (Fixed { raw: ONE_RAW }).spec_div(spec_index(n).spec_sub(Fixed { raw: ONE_RAW })),
    )
}

/// `c` is a color that one sample of the pixel in column `i` and row `j`
/// may give: the color that a ray of the camera through some point of the
/// pixel may return over a black background.
pub open spec fn may_sample(
    world: Hittable,
    camera: Camera,
    i: usize,
    j: usize,
    image_width: usize,
    image_height: usize,
    max_depth: usize,
    c: Color,
) -> bool {
    exists|du: Fixed, dv: Fixed, ray: Ray|
        #![trigger camera.may_gen_ray(image_coordinate(i, image_width, du), image_coordinate(j, image_height, dv), ray)]
        {
            &&& 0 <= du.raw < ONE_RAW
            &&& 0 <= dv.raw < ONE_RAW
            &&& camera.may_gen_ray(
                image_coordinate(i, image_width, du),
                image_coordinate(j, image_height, dv),
                ray,
            )
            &&& may_return(world, Vec3::spec_zero(), ray, max_depth as nat, c)
        }
}

/// `total` is a sum that `count` samples of the pixel may add up to.
pub open spec fn may_sum(
    world: Hittable,
    camera: Camera,
    i: usize,
    j: usize,
    image_width: usize,
    image_height: usize,
    max_depth: usize,
    count: nat,
    total: Color,
) -> bool
    decreases count,
{
    if count == 0 {
        total == Vec3::spec_zero()
    } else {
        exists|so_far: Color, c: Color|
            #![trigger so_far.spec_add(c)]
            {
                &&& may_sum(
                    world,
                    camera,
                    i,
                    j,
                    image_width,
                    image_height,
                    max_depth,
                    (count - 1) as nat,
                    so_far,
                )
                &&& may_sample(world, camera, i, j, image_width, image_height, max_depth, c)
                &&& total == so_far.spec_add(c)
            }
    }
}

/// The sum of `samplers_per_pixel` samples of the pixel in column `i` and
/// row `j`, rows counted from the bottom.
pub fn sample_pixel(
    world: &Hittable,
    camera: &Camera,
    i: usize,
    j: usize,
    image_width: usize,
    image_height: usize,
    samplers_per_pixel: usize,
    max_depth: usize,
    rng: &mut RandomSource,
) -> (r: Color)
    ensures
        may_sum(
            *world,
            *camera,
            i,
            j,
            image_width,
            image_height,
            max_depth,
            samplers_per_pixel as nat,
            r,
        ),
{
    let background_color = Vec3::zero();
    let width_factor = Fixed::one().div(index(image_width).sub(Fixed::one()));
    let height_factor = Fixed::one().div(index(image_height).sub(Fixed::one()));
    let mut color = Vec3::zero();
    let mut k: usize = 0;
    while k < samplers_per_pixel
        invariant
            k <= samplers_per_pixel,
            background_color == Vec3::spec_zero(),
            width_factor == (Fixed { raw: ONE_RAW }).spec_div(
                spec_index(image_width).spec_sub(Fixed { raw: ONE_RAW }),
            ),
            height_factor == (Fixed { raw: ONE_RAW }).spec_div(
                spec_index(image_height).spec_sub(Fixed { raw: ONE_RAW }),
            ),
            may_sum(*world, *camera, i, j, image_width, image_height, max_depth, k as nat, color),
        decreases samplers_per_pixel - k,
    {
        let du = rng.unit();
        let dv = rng.unit();
        let u = index(i).add(du).mul(width_factor);
        let v = index(j).add(dv).mul(height_factor);
        let ray = camera.gen_ray(u, v, rng);
        let c = ray_color(&ray, &background_color, world, max_depth, rng);
        let ghost so_far = color;
        proof {
            assert(camera.may_gen_ray(
                image_coordinate(i, image_width, du),
                image_coordinate(j, image_height, dv),
                ray,
            ));
            assert(may_sample(*world, *camera, i, j, image_width, image_height, max_depth, c));
        }
        color = color.add(c);
        assert(color == so_far.spec_add(c));
        k = k + 1;
    }
    color
}

/// The bytes of the pixel in column `i` and row `j`: its samples, averaged
/// and encoded.
pub fn render_pixel(
    world: &Hittable,
    camera: &Camera,
    i: usize,
    j: usize,
    image_width: usize,
    image_height: usize,
    samplers_per_pixel: usize,
    max_depth: usize,
    rng: &mut RandomSource,
) -> (r: (u8, u8, u8))
    ensures
        exists|total: Color|
            #![trigger spec_encode_color(total, samplers_per_pixel)]
            may_sum(
                *world,
                *camera,
                i,
                j,
                image_width,
                image_height,
                max_depth,
                samplers_per_pixel as nat,
                total,
            ) && r == spec_encode_color(total, samplers_per_pixel),
{
    let total = sample_pixel(
        world,
        camera,
        i,
        j,
        image_width,
        image_height,
        samplers_per_pixel,
        max_depth,
        rng,
    );
    let r = encode_color(&total, samplers_per_pixel);
    assert(r == spec_encode_color(total, samplers_per_pixel));
    r
}

} // verus!

