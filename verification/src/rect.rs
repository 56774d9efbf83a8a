//! Rectangles that lie in a plane of constant x, y or z.

use vstd::prelude::*;
use std::rc::Rc;
use crate::bbox::AABB;
use crate::fixed::Fixed;
use crate::fixed::ONE_RAW;
use crate::hittable::in_window;
use crate::hittable::HitRecord;
use crate::material::Material;
use crate::ray::Ray;
use crate::shared::share;
use crate::vec3::Point3;
use crate::vec3::Vec3;

verus! {

/// Raw thickness that the bounding box of a rectangle gets on either side of
/// its plane (about `0.0001`).
pub const PADDING_RAW: i64 = 429496;

/// The unit vector along axis `i`.
pub open spec fn spec_axis_unit(i: int) -> Vec3 {
    Vec3 {
        x: Fixed { raw: if i == 0 { ONE_RAW } else { 0 } },
        y: Fixed { raw: if i == 1 { ONE_RAW } else { 0 } },
        z: Fixed { raw: if i == 2 { ONE_RAW } else { 0 } },
    }
}

pub fn axis_unit(i: usize) -> (r: Vec3)
    requires
        i < 3,
    ensures
        r == spec_axis_unit(i as int),
{
    Vec3::new(
        Fixed::from_raw(if i == 0 { ONE_RAW } else { 0 }),
        Fixed::from_raw(if i == 1 { ONE_RAW } else { 0 }),
        Fixed::from_raw(if i == 2 { ONE_RAW } else { 0 }),
    )
}

pub enum AARect {
    XYRect { x0: Fixed, x1: Fixed, y0: Fixed, y1: Fixed, k: Fixed, material: Rc<Material> },
    XZRect { x0: Fixed, x1: Fixed, z0: Fixed, z1: Fixed, k: Fixed, material: Rc<Material> },
    YZRect { y0: Fixed, y1: Fixed, z0: Fixed, z1: Fixed, k: Fixed, material: Rc<Material> },
}

/// A rectangle in terms of its axes: the two free axes with the bounds on
/// each, the fixed axis with the position of the plane, and the material.
pub struct RectFrame {
    pub axis0: usize,
    pub axis1: usize,
    pub fixed_axis: usize,
    pub min0: Fixed,
    pub max0: Fixed,
    pub min1: Fixed,
    pub max1: Fixed,
    pub k: Fixed,
    pub material: Rc<Material>,
}

impl RectFrame {
    /// The hit of `ray` on the rectangle: at the parameter where the ray
    /// crosses the plane, where that lies in the window and the crossing
    /// lies within the bounds on both free axes.
    pub open spec fn spec_hit(self, ray: Ray, t_min: Fixed, t_max: Fixed) -> Option<HitRecord> {
        let o = ray.orig;
        let d = ray.dir;
        let t = self.k.spec_sub(o.spec_axis(self.fixed_axis as int)).spec_div(
            d.spec_axis(self.fixed_axis as int),
        );
        let v0 = o.spec_axis(self.axis0 as int).spec_add(
            d.spec_axis(self.axis0 as int).spec_mul(t),
        );
        let v1 = o.spec_axis(self.axis1 as int).spec_add(
            d.spec_axis(self.axis1 as int).spec_mul(t),
        );
        if !in_window(t, t_min, t_max) {
            None
        } else if !in_window(v0, self.min0, self.max0) || !in_window(v1, self.min1, self.max1) {
            None
        } else {
            Some(
                HitRecord::spec_new(
                    ray,
                    t,
                    ray.spec_at(t),
                    spec_axis_unit(self.fixed_axis as int),
                    self.material,
                    v0.spec_sub(self.min0).spec_div(self.max0.spec_sub(self.min0)),
                    v1.spec_sub(self.min1).spec_div(self.max1.spec_sub(self.min1)),
                ),
            )
        }
    }
}

impl AARect {
    pub fn new_xy(x0: Fixed, x1: Fixed, y0: Fixed, y1: Fixed, k: Fixed, material: Rc<Material>) -> (r:
        AARect)
        ensures
            r == (AARect::XYRect { x0, x1, y0, y1, k, material }),
    {
        AARect::XYRect { x0, x1, y0, y1, k, material }
    }

    pub fn new_xz(x0: Fixed, x1: Fixed, z0: Fixed, z1: Fixed, k: Fixed, material: Rc<Material>) -> (r:
        AARect)
        ensures
            r == (AARect::XZRect { x0, x1, z0, z1, k, material }),
    {
        AARect::XZRect { x0, x1, z0, z1, k, material }
    }

    pub fn new_yz(y0: Fixed, y1: Fixed, z0: Fixed, z1: Fixed, k: Fixed, material: Rc<Material>) -> (r:
        AARect)
        ensures
            r == (AARect::YZRect { y0, y1, z0, z1, k, material }),
    {
        AARect::YZRect { y0, y1, z0, z1, k, material }
    }

    pub open spec fn spec_frame(self) -> RectFrame {
        match self {
            AARect::XYRect { x0, x1, y0, y1, k, material } => RectFrame {
                axis0: 0,
                axis1: 1,
                fixed_axis: 2,
                min0: x0,
                max0: x1,
                min1: y0,
                max1: y1,
                k,
                material,
            },
            AARect::XZRect { x0, x1, z0, z1, k, material } => RectFrame {
                axis0: 0,
                axis1: 2,
                fixed_axis: 1,
                min0: x0,
                max0: x1,
                min1: z0,
                max1: z1,
                k,
                material,
            },
            AARect::YZRect { y0, y1, z0, z1, k, material } => RectFrame {
                axis0: 1,
                axis1: 2,
                fixed_axis: 0,
                min0: y0,
                max0: y1,
                min1: z0,
                max1: z1,
                k,
                material,
            },
        }
    }

    /// The hit of `ray` on the rectangle inside the window; see
    /// [`RectFrame::spec_hit`].
    #[verifier::opaque]
    pub open spec fn spec_hit(self, ray: Ray, t_min: Fixed, t_max: Fixed) -> Option<HitRecord> {
        self.spec_frame().spec_hit(ray, t_min, t_max)
    }

    /// The rectangle, given [`PADDING_RAW`] of thickness on both sides of
    /// its plane.
    pub open spec fn spec_bounding_box(self) -> Option<AABB> {
        let pad = Fixed { raw: PADDING_RAW };
        match self {
            AARect::XYRect { x0, x1, y0, y1, k, .. } => Some(
                AABB {
                    min: Vec3 { x: x0, y: y0, z: k.spec_sub(pad) },
                    max: Vec3 { x: x1, y: y1, z: k.spec_add(pad) },
                },
            ),
            AARect::XZRect { x0, x1, z0, z1, k, .. } => Some(
                AABB {
                    min: Vec3 { x: x0, y: k.spec_sub(pad), z: z0 },
                    max: Vec3 { x: x1, y: k.spec_add(pad), z: z1 },
                },
            ),
            AARect::YZRect { y0, y1, z0, z1, k, .. } => Some(
                AABB {
                    min: Vec3 { x: k.spec_sub(pad), y: y0, z: z0 },
                    max: Vec3 { x: k.spec_add(pad), y: y1, z: z1 },
                },
            ),
        }
    }

    pub fn frame(&self) -> (r: RectFrame)
        ensures
            r == self.spec_frame(),
            r.axis0 < 3,
            r.axis1 < 3,
            r.fixed_axis < 3,
    {
        match self {
            AARect::XYRect { x0, x1, y0, y1, k, material } => RectFrame {
                axis0: 0,
                axis1: 1,
                fixed_axis: 2,
                min0: *x0,
                max0: *x1,
                min1: *y0,
                max1: *y1,
                k: *k,
                material: share(material),
            },
            AARect::XZRect { x0, x1, z0, z1, k, material } => RectFrame {
                axis0: 0,
                axis1: 2,
                fixed_axis: 1,
                min0: *x0,
                max0: *x1,
                min1: *z0,
                max1: *z1,
                k: *k,
                material: share(material),
            },
            AARect::YZRect { y0, y1, z0, z1, k, material } => RectFrame {
                axis0: 1,
                axis1: 2,
                fixed_axis: 0,
                min0: *y0,
                max0: *y1,
                min1: *z0,
                max1: *z1,
                k: *k,
                material: share(material),
            },
        }
    }

    pub fn hit(&self, ray: &Ray, t_min: Fixed, t_max: Fixed) -> (r: Option<HitRecord>)
        ensures
            r == self.spec_hit(*ray, t_min, t_max),
    {
        reveal(AARect::spec_hit);
        let f = self.frame();
        let origin = ray.origin();
        let dir = ray.dir();
        let t = f.k.sub(origin.axis(f.fixed_axis)).div(dir.axis(f.fixed_axis));
        if t.raw < t_min.raw || t.raw > t_max.raw {
            return None;
        }
        let v0 = origin.axis(f.axis0).add(dir.axis(f.axis0).mul(t));
        let v1 = origin.axis(f.axis1).add(dir.axis(f.axis1).mul(t));
        if v0.raw < f.min0.raw || v0.raw > f.max0.raw || v1.raw < f.min1.raw || v1.raw > f.max1.raw {
            return None;
        }
        let p = ray.at(t);
        let n = axis_unit(f.fixed_axis);
        let u = v0.sub(f.min0).div(f.max0.sub(f.min0));
        let v = v1.sub(f.min1).div(f.max1.sub(f.min1));
        Some(HitRecord::new(ray, t, &p, &n, f.material, u, v))
    }

    pub fn bounding_box(&self) -> (r: Option<AABB>)
        ensures
            r == self.spec_bounding_box(),
    {
        let pad = Fixed::from_raw(PADDING_RAW);
        match self {
            AARect::XYRect { x0, x1, y0, y1, k, .. } => Some(
                AABB::new(&Point3::new(*x0, *y0, k.sub(pad)), &Point3::new(*x1, *y1, k.add(pad))),
            ),
            AARect::XZRect { x0, x1, z0, z1, k, .. } => Some(
                AABB::new(&Point3::new(*x0, k.sub(pad), *z0), &Point3::new(*x1, k.add(pad), *z1)),
            ),
            AARect::YZRect { y0, y1, z0, z1, k, .. } => Some(
                AABB::new(&Point3::new(k.sub(pad), *y0, *z0), &Point3::new(k.add(pad), *y1, *z1)),
            ),
        }
    }
}

} // verus!
