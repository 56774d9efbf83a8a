//! Rays: an origin, a direction and the time at which the ray was cast.

use vstd::prelude::*;
use crate::fixed::Fixed;
use crate::vec3::Point3;
use crate::vec3::Vec3;

verus! {

#[derive(Clone, Copy, Debug, PartialEq, Eq, Structural)]
pub struct Ray {
    pub orig: Point3,
    pub dir: Vec3,
    pub time: Fixed,
}

impl Ray {
    /// The point reached after travelling `t` along the ray.
    pub open spec fn spec_at(self, t: Fixed) -> Point3 {
        self.orig.spec_add(self.dir.spec_scale(t))
    }

    pub fn new(orig: &Point3, dir: &Vec3, time: Fixed) -> (r: Ray)
        ensures
            r == (Ray { orig: *orig, dir: *dir, time }),
    {
        Ray { orig: *orig, dir: *dir, time }
    }

    pub fn origin(&self) -> (r: Point3)
        ensures
            r == self.orig,
    {
        self.orig
    }

    pub fn dir(&self) -> (r: Vec3)
        ensures
            r == self.dir,
    {
        self.dir
    }

    /// The time sample that the ray carries.
    pub fn t(&self) -> (r: Fixed)
        ensures
            r == self.time,
    {
        self.time
    }

    pub fn at(&self, t: Fixed) -> (r: Point3)
        ensures
            r == self.spec_at(t),
    {
        self.orig.add(self.dir.scale(t))
    }
}

} // verus!
