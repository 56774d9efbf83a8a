//! The camera: from a point of the image to a ray into the scene.

use vstd::prelude::*;
use crate::fixed::Fixed;
use crate::fixed::ONE_RAW;
use crate::material::SAMPLE_TRIES;
use crate::random::RandomSource;
use crate::ray::Ray;
use crate::vec3::Point3;
use crate::vec3::Vec3;

verus! {

/// Raw representation of one half.
pub const HALF_RAW: i64 = 0x8000_0000;

pub struct Camera {
    pub origin: Point3,
    pub lower_left_corner: Point3,
    pub horizontal: Vec3,
    pub vertical: Vec3,
    pub aperture: Fixed,
    pub u: Vec3,
    pub v: Vec3,
    pub w: Vec3,
    pub shutter_duration: Fixed,
}

/// A point of the unit disk in the plane of z = 0: the first of at most
/// [`SAMPLE_TRIES`] draws from the square around it that falls inside, else
/// the center.
pub fn random_in_unit_disk(rng: &mut RandomSource) -> (r: Point3)
    ensures
        r.spec_length_squared().raw < ONE_RAW,
        -ONE_RAW <= r.x.raw < ONE_RAW,
        -ONE_RAW <= r.y.raw < ONE_RAW,
        r.z.raw == 0,
{
    let lo = Fixed::one().neg();
    let hi = Fixed::one();
    let mut i: u32 = 0;
    while i < SAMPLE_TRIES
        invariant
            lo.raw == -ONE_RAW,
            hi.raw == ONE_RAW,
        decreases SAMPLE_TRIES - i,
    {
        let x = rng.between(lo, hi);
        let y = rng.between(lo, hi);
        let p = Point3::new(x, y, Fixed::zero());
        if p.length_squared().raw < ONE_RAW {
            return p;
        }
        i = i + 1;
    }
    Vec3::zero()
}

impl Camera {
    /// The camera at `look_from` that looks at `look_at`, with `up` fixing
    /// its roll.  `viewport_height` is the height of the image plane at unit
    /// distance, twice the tangent of half the vertical field of view.
    pub open spec fn spec_new(
        look_from: Point3,
        look_at: Point3,
        up: Vec3,
        viewport_height: Fixed,
        aspect_ratio: Fixed,
        aperture: Fixed,
        focus_dist: Fixed,
        shutter_duration: Fixed,
    ) -> Camera {
        let viewport_width = viewport_height.spec_mul(aspect_ratio);
        let w = look_from.spec_sub(look_at).spec_unit_vector();
        let u = up.spec_cross(w).spec_unit_vector();
        let v = w.spec_cross(u);
        let horizontal = u.spec_scale(viewport_width).spec_scale(focus_dist);
        let vertical = v.spec_scale(viewport_height).spec_scale(focus_dist);
        let half = Fixed { raw: HALF_RAW };
        Camera {
            origin: look_from,
            lower_left_corner: look_from.spec_sub(horizontal.spec_scale(half)).spec_sub(
                vertical.spec_scale(half),
            ).spec_sub(w.spec_scale(focus_dist)),
            horizontal,
            vertical,
            aperture,
            u,
            v,
            w,
            shutter_duration,
        }
    }

    /// The ray through the point `(s, t)` of the image, for the drawn point
    /// `lens` of the unit disk and the drawn time `time`.
    pub open spec fn ray_through(self, s: Fixed, t: Fixed, lens: Point3, time: Fixed) -> Ray {
        let scaled = lens.spec_scale(self.aperture.spec_mul(Fixed { raw: HALF_RAW }));
        let offset = self.u.spec_scale(scaled.x).spec_add(self.v.spec_scale(scaled.y));
        Ray {
            orig: self.origin.spec_add(offset),
            dir: self.lower_left_corner.spec_add(self.horizontal.spec_scale(s)).spec_add(
                self.vertical.spec_scale(t),
            ).spec_sub(self.origin).spec_sub(offset).spec_unit_vector(),
            time,
        }
    }

    /// `time` is a time at which the shutter may be open.
    pub open spec fn shutter_time(self, time: Fixed) -> bool {
        if self.shutter_duration.raw > 0 {
            0 <= time.raw < self.shutter_duration.raw
        } else {
            time.raw == 0
        }
    }

    /// `r` is a ray that the camera may cast through the point `(s, t)` of
    /// the image: it starts at some point of the lens, at a time at which
    /// the shutter may be open.
    pub open spec fn may_gen_ray(self, s: Fixed, t: Fixed, r: Ray) -> bool {
        &&& exists|lens: Point3|
            lens.spec_length_squared().raw < ONE_RAW && lens.z.raw == 0 && r
                == #[trigger] self.ray_through(s, t, lens, r.time)
        &&& self.shutter_time(r.time)
    }

    pub fn new(
        look_from: &Point3,
        look_at: &Point3,
        up: &Vec3,
        viewport_height: Fixed,
        aspect_ratio: Fixed,
        aperture: Fixed,
        focus_dist: Fixed,
        shutter_duration: Fixed,
    ) -> (r: Camera)
        ensures
            r == Camera::spec_new(
                *look_from,
                *look_at,
                *up,
                viewport_height,
                aspect_ratio,
                aperture,
                focus_dist,
                shutter_duration,
            ),
    {
        let viewport_width = viewport_height.mul(aspect_ratio);
        let w = look_from.sub(*look_at).unit_vector();
        let u = up.cross(w).unit_vector();
        let v = w.cross(u);
        let origin = *look_from;
        let horizontal = u.scale(viewport_width).scale(focus_dist);
        let vertical = v.scale(viewport_height).scale(focus_dist);
        let half = Fixed::from_raw(HALF_RAW);
        let lower_left_corner = origin.sub(horizontal.scale(half)).sub(vertical.scale(half)).sub(
            w.scale(focus_dist),
        );
        Camera {
            origin,
            lower_left_corner,
            horizontal,
            vertical,
            aperture,
            u,
            v,
            w,
            shutter_duration,
        }
    }

    pub fn gen_ray_with(&self, s: Fixed, t: Fixed, lens: &Point3, time: Fixed) -> (r: Ray)
        ensures
            r == self.ray_through(s, t, *lens, time),
    {
        let scaled = lens.scale(self.aperture.mul(Fixed::from_raw(HALF_RAW)));
        let offset = self.u.scale(scaled.x()).add(self.v.scale(scaled.y()));
        Ray::new(
            &self.origin.add(offset),
            &self.lower_left_corner.add(self.horizontal.scale(s)).add(self.vertical.scale(t)).sub(
                self.origin,
            ).sub(offset).unit_vector(),
            time,
        )
    }

    /// The ray through the point `(s, t)` of the image, from a random point
    /// of the lens at a random time while the shutter is open.
    pub fn gen_ray(&self, s: Fixed, t: Fixed, rng: &mut RandomSource) -> (r: Ray)
        ensures
            self.may_gen_ray(s, t, r),
    {
        let lens = random_in_unit_disk(rng);
        let time = if self.shutter_duration.raw > 0 {
            rng.between(Fixed::zero(), self.shutter_duration)
        } else {
            Fixed::zero()
        };
        let r = self.gen_ray_with(s, t, &lens, time);
        assert(r == self.ray_through(s, t, lens, r.time));
        r
    }
}

} // verus!
