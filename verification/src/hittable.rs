//! What a ray can hit, and the record of a hit.

use vstd::prelude::*;
use std::rc::Rc;
use crate::aabox::AABox;
use crate::bbox::AABB;
use crate::fixed::lemma_mul_negated;
use crate::fixed::Fixed;
use crate::material::Material;
use crate::medium::ConstantMedium;
use crate::random::RandomSource;
use crate::ray::Ray;
use crate::rect::AARect;
use crate::sphere::AnimatedSphere;
use crate::sphere::Sphere;
use crate::vec3::Point3;
use crate::vec3::Vec3;

verus! {

/// `t` lies in the window from `t_min` to `t_max`, ends included.
pub open spec fn in_window(t: Fixed, t_min: Fixed, t_max: Fixed) -> bool {
    t_min.raw <= t.raw <= t_max.raw
}

/// `t` lies strictly inside the window from `t_min` to `t_max`.
pub open spec fn inside_window(t: Fixed, t_min: Fixed, t_max: Fixed) -> bool {
    t_min.raw < t.raw < t_max.raw
}

/// The hit that a search keeps when it has tested one more object: the new
/// hit where there is one, else the hit it held.
pub open spec fn later_wins(held: Option<HitRecord>, new: Option<HitRecord>) -> Option<HitRecord> {
    match new {
        Some(r) => Some(r),
        None => held,
    }
}

/// The end of the window that is left for the next object: the parameter of
/// the hit that the search holds, where it holds one.
pub open spec fn rest_of_window(held: Option<HitRecord>, t_max: Fixed) -> Fixed {
    match held {
        Some(h) => h.t,
        None => t_max,
    }
}

/// Where and how a ray met a surface.
pub struct HitRecord {
    pub t: Fixed,
    pub p: Point3,
    pub normal: Vec3,
    pub front_face: bool,
    pub material: Rc<Material>,
    pub u: Fixed,
    pub v: Fixed,
}

impl HitRecord {
    /// The record of a hit at parameter `t` and point `p`.  The stored normal
    /// is the outward normal turned against the ray, and `front_face` tells
    /// whether the outward normal already faced the ray.
    pub open spec fn spec_new(
        ray: Ray,
        t: Fixed,
        p: Point3,
        outward_normal: Vec3,
        material: Rc<Material>,
        u: Fixed,
        v: Fixed,
    ) -> HitRecord {
        let front_face = ray.dir.spec_dot(outward_normal).raw < 0;
        HitRecord {
            t,
            p,
            normal: if front_face {
                outward_normal
            } else {
                outward_normal.spec_neg()
            },
            front_face,
            material,
            u,
            v,
        }
    }

    pub fn new(
        ray: &Ray,
        t: Fixed,
        p: &Point3,
        outward_normal: &Vec3,
        material: Rc<Material>,
        u: Fixed,
        v: Fixed,
    ) -> (r: HitRecord)
        ensures
            r == HitRecord::spec_new(*ray, t, *p, *outward_normal, material, u, v),
    {
        let front_face = ray.dir().dot(*outward_normal).raw < 0;
        HitRecord {
            t,
            p: *p,
            normal: if front_face {
                *outward_normal
            } else {
                outward_normal.neg()
            },
            front_face,
            material,
            u,
            v,
        }
    }
}

/// The normal of a record never points along the ray: its product with
/// the direction of the ray is not positive.  This holds of every outward
/// normal that can be negated exactly.
pub proof fn lemma_normal_opposes_ray(
    ray: Ray,
    t: Fixed,
    p: Point3,
    outward_normal: Vec3,
    material: Rc<Material>,
    u: Fixed,
    v: Fixed,
)
    requires
        outward_normal.x.raw > i64::MIN,
        outward_normal.y.raw > i64::MIN,
        outward_normal.z.raw > i64::MIN,
    ensures
        ray.dir.spec_dot(
            HitRecord::spec_new(ray, t, p, outward_normal, material, u, v).normal,
        ).raw <= 0,
{
    lemma_mul_negated(ray.dir.x, outward_normal.x);
    lemma_mul_negated(ray.dir.y, outward_normal.y);
    lemma_mul_negated(ray.dir.z, outward_normal.z);
}

/// Everything that a ray can hit.
pub enum Hittable {
    Sphere(Sphere),
    AnimatedSphere(AnimatedSphere),
    AARect(AARect),
    AABox(AABox),
    ConstantMedium(ConstantMedium),
    HittableList(HittableList),
    BVH(BVH),
}

/// A collection of objects, searched one after the other.
pub struct HittableList {
    pub objects: Vec<Rc<Hittable>>,
}

/// A node of a bounding volume hierarchy: two children and a box around
/// both.
pub struct BVH {
    pub left: Rc<Hittable>,
    pub right: Rc<Hittable>,
    pub bounding_box: AABB,
}

impl Hittable {
    /// No part of the object draws random numbers when a ray is tested
    /// against it: it holds no medium.
    pub open spec fn deterministic(&self) -> bool
        decreases self, 0nat,
    {
        match *self {
            Hittable::Sphere(_) => true,
            Hittable::AnimatedSphere(_) => true,
            Hittable::AARect(_) => true,
            Hittable::AABox(b) => b.deterministic(),
            Hittable::ConstantMedium(_) => false,
            Hittable::HittableList(l) => l.deterministic(),
            Hittable::BVH(n) => n.deterministic(),
        }
    }

    /// The hit of `ray` on the object inside the window, for an object that
    /// is [`deterministic`](Hittable::deterministic).  A medium is given no
    /// hit here: what it answers depends on chance.
    pub open spec fn spec_hit(&self, ray: Ray, t_min: Fixed, t_max: Fixed) -> Option<HitRecord>
        decreases self, 0nat,
    {
        match *self {
            Hittable::Sphere(s) => s.spec_hit(ray, t_min, t_max),
            Hittable::AnimatedSphere(s) => s.spec_hit(ray, t_min, t_max),
            Hittable::AARect(r) => r.spec_hit(ray, t_min, t_max),
            Hittable::AABox(b) => b.spec_hit(ray, t_min, t_max),
            Hittable::ConstantMedium(_) => None,
            Hittable::HittableList(l) => l.spec_hit(ray, t_min, t_max),
            Hittable::BVH(n) => n.spec_hit(ray, t_min, t_max),
        }
    }

    /// `r` is an answer that the object may give to `ray` over the window.
    /// A sphere or a rectangle gives one answer; a medium gives one for each
    /// number that it may draw; a list, a box and a hierarchy give what their
    /// search makes of the answers of their parts.
    pub open spec fn may_hit(&self, ray: Ray, t_min: Fixed, t_max: Fixed, r: Option<HitRecord>) -> bool
        decreases self, 0nat,
    {
        match *self {
            Hittable::Sphere(s) => r == s.spec_hit(ray, t_min, t_max),
            Hittable::AnimatedSphere(s) => r == s.spec_hit(ray, t_min, t_max),
            Hittable::AARect(q) => r == q.spec_hit(ray, t_min, t_max),
            Hittable::AABox(b) => b.may_hit(ray, t_min, t_max, r),
            Hittable::ConstantMedium(m) => m.may_hit(ray, t_min, t_max, r),
            Hittable::HittableList(l) => l.may_hit(ray, t_min, t_max, r),
            Hittable::BVH(n) => n.may_hit(ray, t_min, t_max, r),
        }
    }

    /// The box around the object, where it has one.
    pub open spec fn spec_bounding_box(&self) -> Option<AABB>
        decreases self, 0nat,
    {
        match *self {
            Hittable::Sphere(s) => s.spec_bounding_box(),
            Hittable::AnimatedSphere(s) => s.spec_bounding_box(),
            Hittable::AARect(r) => r.spec_bounding_box(),
            Hittable::AABox(b) => b.spec_bounding_box(),
            Hittable::ConstantMedium(m) => m.spec_bounding_box(),
            Hittable::HittableList(l) => l.spec_bounding_box(),
            Hittable::BVH(n) => n.spec_bounding_box(),
        }
    }

    /// The nearest hit of `ray` inside the window, if there is one.
    pub fn hit(&self, ray: &Ray, t_min: Fixed, t_max: Fixed, rng: &mut RandomSource) -> (r: Option<
        HitRecord,
    >)
        ensures
            self.may_hit(*ray, t_min, t_max, r),
            self.deterministic() ==> r == self.spec_hit(*ray, t_min, t_max),
        decreases self,
    {
        match self {
            Hittable::Sphere(s) => s.hit(ray, t_min, t_max),
            Hittable::AnimatedSphere(s) => s.hit(ray, t_min, t_max),
            Hittable::AARect(r) => r.hit(ray, t_min, t_max),
            Hittable::AABox(b) => b.hit(ray, t_min, t_max, rng),
            Hittable::ConstantMedium(m) => m.hit(ray, t_min, t_max, rng),
            Hittable::HittableList(l) => l.hit(ray, t_min, t_max, rng),
            Hittable::BVH(n) => n.hit(ray, t_min, t_max, rng),
        }
    }

    pub fn bounding_box(&self) -> (r: Option<AABB>)
        ensures
            r == self.spec_bounding_box(),
        decreases self,
    {
        match self {
            Hittable::Sphere(s) => s.bounding_box(),
            Hittable::AnimatedSphere(s) => s.bounding_box(),
            Hittable::AARect(r) => r.bounding_box(),
            Hittable::AABox(b) => b.bounding_box(),
            Hittable::ConstantMedium(m) => m.bounding_box(),
            Hittable::HittableList(l) => l.bounding_box(),
            Hittable::BVH(n) => n.bounding_box(),
        }
    }
}

impl HittableList {
    pub open spec fn deterministic(self) -> bool
        decreases self, 0nat,
    {
        forall|i: int|
            0 <= i < self.objects@.len() ==> (#[trigger] self.objects@[i]).deterministic()
    }

    /// The hit that the search holds after the first `n` objects: each
    /// object is tested from `t_min` up to the nearest hit found before it,
    /// and replaces that hit where it is hit itself.
    pub open spec fn spec_hit_prefix(self, n: nat, ray: Ray, t_min: Fixed, t_max: Fixed) -> Option<
        HitRecord,
    >
        decreases self, n,
    {
        if n == 0 || n > self.objects@.len() {
            None
        } else {
            let before = self.spec_hit_prefix((n - 1) as nat, ray, t_min, t_max);
            later_wins(
                before,
                self.objects@[n - 1].spec_hit(ray, t_min, rest_of_window(before, t_max)),
            )
        }
    }

    /// `r` is a hit that the search may hold after the first `n` objects.
    pub open spec fn may_hit_prefix(
        self,
        n: nat,
        ray: Ray,
        t_min: Fixed,
        t_max: Fixed,
        r: Option<HitRecord>,
    ) -> bool
        decreases self, n,
    {
        if n == 0 || n > self.objects@.len() {
            r is None
        } else {
            exists|before: Option<HitRecord>, new: Option<HitRecord>|
                #![trigger later_wins(before, new)]
                {
                    &&& self.may_hit_prefix((n - 1) as nat, ray, t_min, t_max, before)
                    &&& self.objects@[n - 1].may_hit(
                        ray,
                        t_min,
                        rest_of_window(before, t_max),
                        new,
                    )
                    &&& r == later_wins(before, new)
                }
        }
    }

    /// `r` is a hit that the search may hold after all objects.
    pub open spec fn may_hit(self, ray: Ray, t_min: Fixed, t_max: Fixed, r: Option<HitRecord>) -> bool
        decreases self, self.objects@.len() + 1,
    {
        self.may_hit_prefix(self.objects@.len(), ray, t_min, t_max, r)
    }

    /// The hit that the search holds after all objects.
    pub open spec fn spec_hit(self, ray: Ray, t_min: Fixed, t_max: Fixed) -> Option<HitRecord>
        decreases self, self.objects@.len() + 1,
    {
        self.spec_hit_prefix(self.objects@.len(), ray, t_min, t_max)
    }

    /// The box around the first `n` objects; nothing where one of them has
    /// no box.
    pub open spec fn spec_bounding_box_prefix(self, n: nat) -> Option<AABB>
        decreases self, n,
    {
        if n == 0 || n > self.objects@.len() {
            Some(AABB::spec_empty())
        } else {
            match (
                self.spec_bounding_box_prefix((n - 1) as nat),
                self.objects@[n - 1].spec_bounding_box(),
            ) {
                (Some(so_far), Some(b)) => Some(so_far.spec_merge(b)),
                _ => None,
            }
        }
    }

    /// The box around all objects; nothing where one of them has no box.
    pub open spec fn spec_bounding_box(self) -> Option<AABB>
        decreases self, self.objects@.len() + 1,
    {
        self.spec_bounding_box_prefix(self.objects@.len())
    }

    /// A list that holds `object` alone.
    pub fn new(object: Rc<Hittable>) -> (r: HittableList)
        ensures
            r.objects@ == seq![object],
    {
        let mut ret = HittableList { objects: Vec::new() };
        ret.add(object);
        ret
    }

    pub fn add(&mut self, object: Rc<Hittable>)
        ensures
            final(self).objects@ == old(self).objects@.push(object),
    {
        self.objects.push(object);
    }

    pub fn clear(&mut self)
        ensures
            final(self).objects@ == Seq::<Rc<Hittable>>::empty(),
    {
        self.objects.clear();
    }

    /// The nearest hit among the objects: each object is tested up to the
    /// nearest hit found so far.
    pub fn hit(&self, ray: &Ray, t_min: Fixed, t_max: Fixed, rng: &mut RandomSource) -> (r: Option<
        HitRecord,
    >)
        ensures
            self.may_hit(*ray, t_min, t_max, r),
            self.deterministic() ==> r == self.spec_hit(*ray, t_min, t_max),
        decreases self,
    {
        let mut record: Option<HitRecord> = None;
        let mut closest_so_far = t_max;
        let mut i: usize = 0;
        while i < self.objects.len()
            invariant
                i <= self.objects.len(),
                closest_so_far == rest_of_window(record, t_max),
                self.may_hit_prefix(i as nat, *ray, t_min, t_max, record),
                self.deterministic() ==> record == self.spec_hit_prefix(
                    i as nat,
                    *ray,
                    t_min,
                    t_max,
                ),
            decreases self.objects.len() - i,
        {
            proof {
                assert(decreases_to!(self => self.objects));
                assert(decreases_to!(self.objects => self.objects@));
                assert(decreases_to!(self.objects@ => self.objects@[i as int]));
            }
            let ghost before = record;
            let found = self.objects[i].hit(ray, t_min, closest_so_far, rng);
            let ghost new = found;
            if let Some(h) = found {
                closest_so_far = h.t;
                record = Some(h);
            }
            assert(record == later_wins(before, new));
            i = i + 1;
        }
        record
    }

    pub fn bounding_box(&self) -> (r: Option<AABB>)
        ensures
            r == self.spec_bounding_box(),
        decreases self,
    {
        let mut aabb = AABB::default();
        let mut i: usize = 0;
        while i < self.objects.len()
            invariant
                i <= self.objects.len(),
                self.spec_bounding_box_prefix(i as nat) == Some(aabb),
            decreases self.objects.len() - i,
        {
            proof {
                assert(decreases_to!(self => self.objects));
                assert(decreases_to!(self.objects => self.objects@));
                assert(decreases_to!(self.objects@ => self.objects@[i as int]));
            }
            if let Some(b) = self.objects[i].bounding_box() {
                aabb.merge(&b);
            } else {
                proof {
                    self.lemma_bounding_box_none(i as nat, self.objects@.len());
                }
                return None;
            }
            i = i + 1;
        }
        Some(aabb)
    }

    /// Once an object without a box is among the first objects, no longer
    /// prefix has a box.
    pub proof fn lemma_bounding_box_none(self, i: nat, n: nat)
        requires
            i < n <= self.objects@.len(),
            self.objects@[i as int].spec_bounding_box() is None,
        ensures
            self.spec_bounding_box_prefix(n) is None,
        decreases n,
    {
        if n > i + 1 {
            self.lemma_bounding_box_none(i, (n - 1) as nat);
        }
    }
}

impl Default for HittableList {
    /// The list that holds nothing.
    fn default() -> (r: HittableList)
        ensures
            r.objects@ == Seq::<Rc<Hittable>>::empty(),
    {
        HittableList { objects: Vec::new() }
    }
}

impl BVH {
    pub open spec fn deterministic(self) -> bool
        decreases self, 0nat,
    {
        self.left.deterministic() && self.right.deterministic()
    }

    /// The hit of `ray` below this node: nothing where the ray misses the
    /// node's box.  Else the left child is tested over the whole window, and
    /// the right child from `t_min` up to the hit on the left, where there is
    /// one; a hit on the right then takes its place.
    pub open spec fn spec_hit(self, ray: Ray, t_min: Fixed, t_max: Fixed) -> Option<HitRecord>
        decreases self, 0nat,
    {
        if !self.bounding_box.spec_hit(ray, t_min, t_max) {
            None
        } else {
            let l = self.left.spec_hit(ray, t_min, t_max);
            later_wins(l, self.right.spec_hit(ray, t_min, rest_of_window(l, t_max)))
        }
    }

    /// `r` is an answer that the node may give to `ray` over the window.
    pub open spec fn may_hit(self, ray: Ray, t_min: Fixed, t_max: Fixed, r: Option<HitRecord>) -> bool
        decreases self, 0nat,
    {
        if !self.bounding_box.spec_hit(ray, t_min, t_max) {
            r is None
        } else {
            exists|l: Option<HitRecord>, new: Option<HitRecord>|
                #![trigger later_wins(l, new)]
                {
                    &&& self.left.may_hit(ray, t_min, t_max, l)
                    &&& self.right.may_hit(ray, t_min, rest_of_window(l, t_max), new)
                    &&& r == later_wins(l, new)
                }
        }
    }

    pub open spec fn spec_bounding_box(self) -> Option<AABB> {
        Some(self.bounding_box)
    }

    /// The nearest hit below this node.
    pub fn hit(&self, ray: &Ray, t_min: Fixed, t_max: Fixed, rng: &mut RandomSource) -> (r: Option<
        HitRecord,
    >)
        ensures
            self.may_hit(*ray, t_min, t_max, r),
            self.deterministic() ==> r == self.spec_hit(*ray, t_min, t_max),
        decreases self,
    {
        if !self.bounding_box.hit(ray, t_min, t_max) {
            return None;
        }
        let on_left = self.left.hit(ray, t_min, t_max, rng);
        let ghost l = on_left;
        if let Some(left) = on_left {
            let on_right = self.right.hit(ray, t_min, left.t, rng);
            let ghost new = on_right;
            let r = match on_right {
                Some(r) => Some(r),
                None => Some(left),
            };
            assert(r == later_wins(l, new));
            r
        } else {
            let r = self.right.hit(ray, t_min, t_max, rng);
            assert(r == later_wins(l, r));
            r
        }
    }

    pub fn bounding_box(&self) -> (r: Option<AABB>)
        ensures
            r == self.spec_bounding_box(),
    {
        Some(self.bounding_box)
    }
}

impl Hittable {
    /// An object that draws no random numbers gives one answer only.
    pub proof fn lemma_one_answer(&self, ray: Ray, t_min: Fixed, t_max: Fixed, r: Option<HitRecord>)
        requires
            self.deterministic(),
            self.may_hit(ray, t_min, t_max, r),
        ensures
            r == self.spec_hit(ray, t_min, t_max),
        decreases self, 0nat,
    {
        match self {
            Hittable::AABox(b) => {
                assert(b.may_hit(ray, t_min, t_max, r));
                assert(b.sides.may_hit(ray, t_min, t_max, r));
                assert(b.deterministic());
                assert(b.sides.deterministic());
                b.sides.lemma_one_answer_prefix(b.sides.objects@.len(), ray, t_min, t_max, r);
                assert(b.sides.spec_hit(ray, t_min, t_max) == r);
                assert(b.spec_hit(ray, t_min, t_max) == r);
            },
            Hittable::HittableList(l) => {
                l.lemma_one_answer_prefix(l.objects@.len(), ray, t_min, t_max, r);
            },
            Hittable::BVH(n) => {
                n.lemma_one_answer(ray, t_min, t_max, r);
            },
            _ => {},
        }
    }
}

impl HittableList {
    /// A search through objects that draw no random numbers holds one hit
    /// only after the first `n` objects.
    pub proof fn lemma_one_answer_prefix(
        &self,
        n: nat,
        ray: Ray,
        t_min: Fixed,
        t_max: Fixed,
        r: Option<HitRecord>,
    )
        requires
            self.deterministic(),
            n <= self.objects@.len(),
            self.may_hit_prefix(n, ray, t_min, t_max, r),
        ensures
            r == self.spec_hit_prefix(n, ray, t_min, t_max),
        decreases self, n,
    {
        if n > 0 {
            let (before, new) = choose|before: Option<HitRecord>, new: Option<HitRecord>|
                #![trigger later_wins(before, new)]
                {
                    &&& self.may_hit_prefix((n - 1) as nat, ray, t_min, t_max, before)
                    &&& self.objects@[n - 1].may_hit(
                        ray,
                        t_min,
                        rest_of_window(before, t_max),
                        new,
                    )
                    &&& r == later_wins(before, new)
                };
            self.lemma_one_answer_prefix((n - 1) as nat, ray, t_min, t_max, before);
            assert(decreases_to!(self => self.objects));
            assert(decreases_to!(self.objects => self.objects@));
            assert(decreases_to!(self.objects@ => self.objects@[n - 1]));
            self.objects@[n - 1].lemma_one_answer(ray, t_min, rest_of_window(before, t_max), new);
        }
    }
}

impl BVH {
    /// A node over objects that draw no random numbers gives one answer
    /// only.
    pub proof fn lemma_one_answer(&self, ray: Ray, t_min: Fixed, t_max: Fixed, r: Option<HitRecord>)
        requires
            self.deterministic(),
            self.may_hit(ray, t_min, t_max, r),
        ensures
            r == self.spec_hit(ray, t_min, t_max),
        decreases self, 0nat,
    {
        if self.bounding_box.spec_hit(ray, t_min, t_max) {
            let (l, new) = choose|l: Option<HitRecord>, new: Option<HitRecord>|
                #![trigger later_wins(l, new)]
                {
                    &&& self.left.may_hit(ray, t_min, t_max, l)
                    &&& self.right.may_hit(ray, t_min, rest_of_window(l, t_max), new)
                    &&& r == later_wins(l, new)
                };
            self.left.lemma_one_answer(ray, t_min, t_max, l);
            self.right.lemma_one_answer(ray, t_min, rest_of_window(l, t_max), new);
        }
    }
}

} // verus!
