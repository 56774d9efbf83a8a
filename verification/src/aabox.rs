//! Boxes with faces parallel to the coordinate planes.

use vstd::prelude::*;
use std::rc::Rc;
use crate::bbox::AABB;
use crate::fixed::Fixed;
use crate::hittable::HitRecord;
use crate::hittable::Hittable;
use crate::hittable::HittableList;
use crate::material::Material;
use crate::random::RandomSource;
use crate::ray::Ray;
use crate::rect::AARect;
use crate::shared::share;
use crate::vec3::Point3;

verus! {

/// A box made of its six faces.
pub struct AABox {
    pub min: Point3,
    pub max: Point3,
    pub sides: HittableList,
}

impl AABox {
    /// The six faces of the box between `min` and `max`: front and back,
    /// top and bottom, right and left.
    pub open spec fn spec_faces(min: Point3, max: Point3, material: Rc<Material>) -> Seq<
        Rc<Hittable>,
    > {
        seq![
            Rc::new(
                Hittable::AARect(
                    AARect::XYRect { x0: min.x, x1: max.x, y0: min.y, y1: max.y, k: max.z, material },
                ),
            ),
            Rc::new(
                Hittable::AARect(
                    AARect::XYRect { x0: min.x, x1: max.x, y0: min.y, y1: max.y, k: min.z, material },
                ),
            ),
            Rc::new(
                Hittable::AARect(
                    AARect::XZRect { x0: min.x, x1: max.x, z0: min.z, z1: max.z, k: max.y, material },
                ),
            ),
            Rc::new(
                Hittable::AARect(
                    AARect::XZRect { x0: min.x, x1: max.x, z0: min.z, z1: max.z, k: min.y, material },
                ),
            ),
            Rc::new(
                Hittable::AARect(
                    AARect::YZRect { y0: min.y, y1: max.y, z0: min.z, z1: max.z, k: max.x, material },
                ),
            ),
            Rc::new(
                Hittable::AARect(
                    AARect::YZRect { y0: min.y, y1: max.y, z0: min.z, z1: max.z, k: min.x, material },
                ),
            ),
        ]
    }

    pub fn new(min: &Point3, max: &Point3, material: Rc<Material>) -> (r: AABox)
        ensures
            r.min == *min,
            r.max == *max,
            r.sides.objects@ == AABox::spec_faces(*min, *max, material),
            r.deterministic(),
    {
        let mut sides = HittableList::default();
        sides.add(
            Rc::new(
                Hittable::AARect(
                    AARect::new_xy(min.x(), max.x(), min.y(), max.y(), max.z(), share(&material)),
                ),
            ),
        );
        sides.add(
            Rc::new(
                Hittable::AARect(
                    AARect::new_xy(min.x(), max.x(), min.y(), max.y(), min.z(), share(&material)),
                ),
            ),
        );
        sides.add(
            Rc::new(
                Hittable::AARect(
                    AARect::new_xz(min.x(), max.x(), min.z(), max.z(), max.y(), share(&material)),
                ),
            ),
        );
        sides.add(
            Rc::new(
                Hittable::AARect(
                    AARect::new_xz(min.x(), max.x(), min.z(), max.z(), min.y(), share(&material)),
                ),
            ),
        );
        sides.add(
            Rc::new(
                Hittable::AARect(
                    AARect::new_yz(min.y(), max.y(), min.z(), max.z(), max.x(), share(&material)),
                ),
            ),
        );
        sides.add(
            Rc::new(
                Hittable::AARect(
                    AARect::new_yz(min.y(), max.y(), min.z(), max.z(), min.x(), share(&material)),
                ),
            ),
        );
        AABox { min: *min, max: *max, sides }
    }

    pub open spec fn deterministic(self) -> bool
        decreases self, 0nat,
    {
        self.sides.deterministic()
    }

    /// The nearest hit on one of the faces.
    pub open spec fn spec_hit(self, ray: Ray, t_min: Fixed, t_max: Fixed) -> Option<HitRecord>
        decreases self, 0nat,
    {
        self.sides.spec_hit(ray, t_min, t_max)
    }

    /// `r` is an answer that the search through the faces may give.
    pub open spec fn may_hit(self, ray: Ray, t_min: Fixed, t_max: Fixed, r: Option<HitRecord>) -> bool
        decreases self, 0nat,
    {
        self.sides.may_hit(ray, t_min, t_max, r)
    }

    /// The box itself, whatever its faces are.
    pub open spec fn spec_bounding_box(self) -> Option<AABB> {
        Some(AABB { min: self.min, max: self.max })
    }

    pub fn hit(&self, ray: &Ray, t_min: Fixed, t_max: Fixed, rng: &mut RandomSource) -> (r: Option<
        HitRecord,
    >)
        ensures
            self.may_hit(*ray, t_min, t_max, r),
            self.deterministic() ==> r == self.spec_hit(*ray, t_min, t_max),
        decreases self,
    {
        self.sides.hit(ray, t_min, t_max, rng)
    }

    pub fn bounding_box(&self) -> (r: Option<AABB>)
        ensures
            r == self.spec_bounding_box(),
    {
        Some(AABB::new(&self.min, &self.max))
    }
}

} // verus!
