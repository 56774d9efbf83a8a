//! Axis-aligned bounding boxes and the slab test.

use vstd::prelude::*;
use crate::fixed::Fixed;
use crate::fixed::lemma_div_monotone;
use crate::fixed::lemma_sub_monotone;
use crate::ray::Ray;
use crate::vec3::Point3;
use crate::vec3::Vec3;

verus! {

/// Parameter at which a ray with origin `o` and direction `d` along one axis
/// enters the slab between `lo` and `hi`.  A ray that runs along the slab
/// has been inside forever where it starts at `lo` or above, and never
/// enters where it starts below `lo`.
pub open spec fn slab_entry(lo: Fixed, hi: Fixed, o: Fixed, d: Fixed) -> Fixed {
    if d.raw > 0 {
        lo.spec_sub(o).spec_div(d)
    } else if d.raw < 0 {
        hi.spec_sub(o).spec_div(d)
    } else if o.raw < lo.raw {
        Fixed { raw: i64::MAX }
    } else {
        Fixed { raw: i64::MIN }
    }
}

/// Parameter at which the ray leaves the slab between `lo` and `hi`.  A ray
/// that runs along the slab never leaves where it starts at `hi` or below,
/// and has left forever where it starts above `hi`.
pub open spec fn slab_exit(lo: Fixed, hi: Fixed, o: Fixed, d: Fixed) -> Fixed {
    if d.raw > 0 {
        hi.spec_sub(o).spec_div(d)
    } else if d.raw < 0 {
        lo.spec_sub(o).spec_div(d)
    } else if o.raw > hi.raw {
        Fixed { raw: i64::MIN }
    } else {
        Fixed { raw: i64::MAX }
    }
}

/// Entry and exit parameters of one axis.
fn slab(lo: Fixed, hi: Fixed, o: Fixed, d: Fixed) -> (r: (Fixed, Fixed))
    ensures
        r.0 == slab_entry(lo, hi, o, d),
        r.1 == slab_exit(lo, hi, o, d),
{
    if d.raw > 0 {
        (lo.sub(o).div(d), hi.sub(o).div(d))
    } else if d.raw < 0 {
        (hi.sub(o).div(d), lo.sub(o).div(d))
    } else {
        let entry = if o.raw < lo.raw {
            Fixed::max_value()
        } else {
            Fixed::min_value()
        };
        let exit = if o.raw > hi.raw {
            Fixed::min_value()
        } else {
            Fixed::max_value()
        };
        (entry, exit)
    }
}

/// A box given by its smallest and its largest corner.
#[derive(Clone, Copy, Debug, PartialEq, Eq, Structural)]
pub struct AABB {
    pub min: Point3,
    pub max: Point3,
}

impl AABB {
    /// The box that holds nothing: merging it with a box gives that box.
    pub open spec fn spec_empty() -> AABB {
        AABB {
            min: Vec3 {
                x: Fixed { raw: i64::MAX },
                y: Fixed { raw: i64::MAX },
                z: Fixed { raw: i64::MAX },
            },
            max: Vec3 {
                x: Fixed { raw: i64::MIN },
                y: Fixed { raw: i64::MIN },
                z: Fixed { raw: i64::MIN },
            },
        }
    }

    /// The smallest box that holds both boxes.
    pub open spec fn spec_merge(self, other: AABB) -> AABB {
        AABB {
            min: Vec3 {
                x: self.min.x.spec_min(other.min.x),
                y: self.min.y.spec_min(other.min.y),
                z: self.min.z.spec_min(other.min.z),
            },
            max: Vec3 {
                x: self.max.x.spec_max(other.max.x),
                y: self.max.y.spec_max(other.max.y),
                z: self.max.z.spec_max(other.max.z),
            },
        }
    }

    /// `other` adds nothing to this box: merging it in leaves the box as it
    /// is.
    pub open spec fn encloses(self, other: AABB) -> bool {
        self.spec_merge(other) == self
    }

    /// No axis has its smallest bound above its largest.
    pub open spec fn spec_valid(self) -> bool {
        &&& self.min.x.raw <= self.max.x.raw
        &&& self.min.y.raw <= self.max.y.raw
        &&& self.min.z.raw <= self.max.z.raw
    }

    /// Entry parameter of `ray` on axis `i`.
    pub open spec fn entry(self, ray: Ray, i: int) -> Fixed {
        slab_entry(
            self.min.spec_axis(i),
            self.max.spec_axis(i),
            ray.orig.spec_axis(i),
            ray.dir.spec_axis(i),
        )
    }

    /// Exit parameter of `ray` on axis `i`.
    pub open spec fn exit(self, ray: Ray, i: int) -> Fixed {
        slab_exit(
            self.min.spec_axis(i),
            self.max.spec_axis(i),
            ray.orig.spec_axis(i),
            ray.dir.spec_axis(i),
        )
    }

    /// Latest entry over the three axes, and not before `t_min`.
    pub open spec fn latest_entry(self, ray: Ray, t_min: Fixed) -> Fixed {
        t_min.spec_max(self.entry(ray, 0)).spec_max(self.entry(ray, 1)).spec_max(
            self.entry(ray, 2),
        )
    }

    /// Earliest exit over the three axes, and not after `t_max`.
    pub open spec fn earliest_exit(self, ray: Ray, t_max: Fixed) -> Fixed {
        t_max.spec_min(self.exit(ray, 0)).spec_min(self.exit(ray, 1)).spec_min(self.exit(ray, 2))
    }

    /// The ray is inside all three slabs at some parameter of the window: the
    /// latest entry comes before the earliest exit.
    pub open spec fn spec_hit(self, ray: Ray, t_min: Fixed, t_max: Fixed) -> bool {
        self.latest_entry(ray, t_min).raw < self.earliest_exit(ray, t_max).raw
    }

    /// The window after it was cut down to the slab of axis `i`.
    pub open spec fn narrow(self, ray: Ray, window: (Fixed, Fixed), i: int) -> (Fixed, Fixed) {
        (window.0.spec_max(self.entry(ray, i)), window.1.spec_min(self.exit(ray, i)))
    }

    /// The slab test with the axes taken in the order `i`, `j`, `k`, giving
    /// up as soon as the window is empty.
    pub open spec fn hit_in_order(
        self,
        ray: Ray,
        t_min: Fixed,
        t_max: Fixed,
        i: int,
        j: int,
        k: int,
    ) -> bool {
        let first = self.narrow(ray, (t_min, t_max), i);
        if first.1.raw <= first.0.raw {
            false
        } else {
            let second = self.narrow(ray, first, j);
            if second.1.raw <= second.0.raw {
                false
            } else {
                let third = self.narrow(ray, second, k);
                !(third.1.raw <= third.0.raw)
            }
        }
    }

    pub fn new(min: &Point3, max: &Point3) -> (r: AABB)
        ensures
            r == (AABB { min: *min, max: *max }),
    {
        AABB { min: *min, max: *max }
    }

    pub fn min(&self) -> (r: Point3)
        ensures
            r == self.min,
    {
        self.min
    }

    pub fn max(&self) -> (r: Point3)
        ensures
            r == self.max,
    {
        self.max
    }

    /// Whether `ray` passes through the box at a parameter strictly between
    /// the narrowed bounds of the window from `t_min` to `t_max`.
    pub fn hit(&self, ray: &Ray, t_min: Fixed, t_max: Fixed) -> (r: bool)
        ensures
            r == self.spec_hit(*ray, t_min, t_max),
            r == self.hit_in_order(*ray, t_min, t_max, 0, 1, 2),
    {
        let dir = ray.dir();
        let origin = ray.origin();
        let mut lo = t_min;
        let mut hi = t_max;
        let mut i: usize = 0;
        while i < 3
            invariant
                i <= 3,
                dir == ray.dir,
                origin == ray.orig,
                i == 0 ==> lo == t_min && hi == t_max,
                i == 1 ==> (lo, hi) == self.narrow(*ray, (t_min, t_max), 0),
                i == 2 ==> (lo, hi) == self.narrow(
                    *ray,
                    self.narrow(*ray, (t_min, t_max), 0),
                    1,
                ),
                i == 3 ==> (lo, hi) == self.narrow(
                    *ray,
                    self.narrow(*ray, self.narrow(*ray, (t_min, t_max), 0), 1),
                    2,
                ),
                i >= 1 ==> lo.raw < hi.raw,
                i >= 1 ==> self.narrow(*ray, (t_min, t_max), 0).0.raw < self.narrow(
                    *ray,
                    (t_min, t_max),
                    0,
                ).1.raw,
                i >= 2 ==> self.narrow(*ray, self.narrow(*ray, (t_min, t_max), 0), 1).0.raw
                    < self.narrow(*ray, self.narrow(*ray, (t_min, t_max), 0), 1).1.raw,
            decreases 3 - i,
        {
            let (t0, t1) = slab(self.min.axis(i), self.max.axis(i), origin.axis(i), dir.axis(i));
            lo = lo.max(t0);
            hi = hi.min(t1);
            if hi.raw <= lo.raw {
                return false;
            }
            i = i + 1;
        }
        true
    }

    /// Grows the box until it also holds `other`.
    pub fn merge(&mut self, other: &AABB)
        ensures
            *final(self) == old(self).spec_merge(*other),
    {
        let omin = other.min();
        let omax = other.max();
        self.min = Point3::new(
            self.min.x.min(omin.x),
            self.min.y.min(omin.y),
            self.min.z.min(omin.z),
        );
        self.max = Point3::new(
            self.max.x.max(omax.x),
            self.max.y.max(omax.y),
            self.max.z.max(omax.z),
        );
    }

    pub fn valid(&self) -> (r: bool)
        ensures
            r == self.spec_valid(),
    {
        self.min.x.raw <= self.max.x.raw && self.min.y.raw <= self.max.y.raw && self.min.z.raw
            <= self.max.z.raw
    }
}

impl Default for AABB {
    /// The empty box.
    fn default() -> (r: AABB)
        ensures
            r == AABB::spec_empty(),
    {
        AABB {
            min: Point3::new(Fixed::max_value(), Fixed::max_value(), Fixed::max_value()),
            max: Point3::new(Fixed::min_value(), Fixed::min_value(), Fixed::min_value()),
        }
    }
}

/// Merging does not depend on the order of the two boxes.
pub proof fn lemma_merge_commutative(a: AABB, b: AABB)
    ensures
        a.spec_merge(b) == b.spec_merge(a),
{
}

/// Merging three boxes does not depend on which two are merged first.
pub proof fn lemma_merge_associative(a: AABB, b: AABB, c: AABB)
    ensures
        a.spec_merge(b).spec_merge(c) == a.spec_merge(b.spec_merge(c)),
{
}

/// The empty box is a neutral element of merging, on either side.
pub proof fn lemma_merge_empty_identity(a: AABB)
    ensures
        AABB::spec_empty().spec_merge(a) == a,
        a.spec_merge(AABB::spec_empty()) == a,
{
}

/// Merging a box with itself changes nothing.
pub proof fn lemma_merge_idempotent(a: AABB)
    ensures
        a.spec_merge(a) == a,
{
}

/// A box encloses what a box that it encloses encloses.
pub proof fn lemma_encloses_transitive(a: AABB, b: AABB, c: AABB)
    requires
        a.encloses(b),
        b.encloses(c),
    ensures
        a.encloses(c),
{
}

/// Two boxes that enclose each other are one box.
pub proof fn lemma_encloses_antisymmetric(a: AABB, b: AABB)
    requires
        a.encloses(b),
        b.encloses(a),
    ensures
        a == b,
{
}

/// A merged box encloses both of its parts, and is enclosed by every box
/// that encloses both.
pub proof fn lemma_merge_is_least(a: AABB, b: AABB, c: AABB)
    ensures
        a.spec_merge(b).encloses(a),
        a.spec_merge(b).encloses(b),
        c.encloses(a) && c.encloses(b) ==> c.encloses(a.spec_merge(b)),
{
}

/// The slab test gives the same answer in whatever order the three axes are
/// taken.
pub proof fn lemma_hit_axis_order_independent(
    b: AABB,
    ray: Ray,
    t_min: Fixed,
    t_max: Fixed,
    i: int,
    j: int,
    k: int,
)
    requires
        0 <= i < 3,
        0 <= j < 3,
        0 <= k < 3,
        i != j,
        j != k,
        i != k,
    ensures
        b.hit_in_order(ray, t_min, t_max, i, j, k) == b.spec_hit(ray, t_min, t_max),
        b.hit_in_order(ray, t_min, t_max, i, j, k) == b.hit_in_order(ray, t_min, t_max, 0, 1, 2),
{
}

/// On every axis a merged box is entered no later and left no earlier than
/// either of its parts.
pub proof fn lemma_merge_widens_slab(a: AABB, b: AABB, ray: Ray, i: int)
    requires
        0 <= i < 3,
    ensures
        a.spec_merge(b).entry(ray, i).raw <= a.entry(ray, i).raw,
        a.spec_merge(b).exit(ray, i).raw >= a.exit(ray, i).raw,
{
    let m = a.spec_merge(b);
    let o = ray.orig.spec_axis(i);
    let d = ray.dir.spec_axis(i);
    let lo = a.min.spec_axis(i);
    let hi = a.max.spec_axis(i);
    let mlo = m.min.spec_axis(i);
    let mhi = m.max.spec_axis(i);
    assert(mlo.raw <= lo.raw);
    assert(mhi.raw >= hi.raw);
    lemma_sub_monotone(mlo, lo, o);
    lemma_sub_monotone(hi, mhi, o);
    if d.raw != 0 {
        lemma_div_monotone(mlo.spec_sub(o), lo.spec_sub(o), d);
        lemma_div_monotone(hi.spec_sub(o), mhi.spec_sub(o), d);
    }
}

/// A ray that passes through a box also passes through every box that the
/// first was merged into, over the same window.
pub proof fn lemma_merge_keeps_hit(a: AABB, b: AABB, ray: Ray, t_min: Fixed, t_max: Fixed)
    requires
        a.spec_hit(ray, t_min, t_max),
    ensures
        a.spec_merge(b).spec_hit(ray, t_min, t_max),
        b.spec_merge(a).spec_hit(ray, t_min, t_max),
{
    lemma_merge_widens_slab(a, b, ray, 0);
    lemma_merge_widens_slab(a, b, ray, 1);
    lemma_merge_widens_slab(a, b, ray, 2);
    lemma_merge_commutative(a, b);
}

} // verus!
