//! A medium of constant density, such as smoke, inside a boundary.

use vstd::prelude::*;
use std::rc::Rc;
use crate::bbox::AABB;
use crate::elementary::lemma_ln_negative_below_one;
use crate::elementary::ln;
use crate::elementary::spec_ln;
use crate::fixed::lemma_mul_antitone;
use crate::fixed::lemma_mul_of_nonpositive;
use crate::fixed::lemma_negative_over_divisor;
use crate::fixed::Fixed;
use crate::fixed::ONE_RAW;
use crate::hittable::HitRecord;
use crate::hittable::Hittable;
use crate::material::Material;
use crate::random::RandomSource;
use crate::ray::Ray;
use crate::shared::share;
use crate::vec3::Vec3;

verus! {

/// Raw distance behind the entry at which the search for the exit starts
/// (about `0.0001`).
pub const SKIN_RAW: i64 = 429496;

pub struct ConstantMedium {
    pub boundary: Rc<Hittable>,
    pub phase_function: Rc<Material>,
    pub neg_inv_density: Fixed,
}

impl ConstantMedium {
    pub fn new(boundary: Rc<Hittable>, phase_function: Rc<Material>, density: Fixed) -> (r:
        ConstantMedium)
        ensures
            r.boundary == boundary,
            r.phase_function == phase_function,
            r.neg_inv_density == (Fixed { raw: ONE_RAW }).spec_neg().spec_div(density),
    {
        ConstantMedium {
            boundary,
            phase_function,
            neg_inv_density: Fixed::one().neg().div(density),
        }
    }

    /// Length of the free path that belongs to the drawn number `sample`
    /// of the open unit interval: minus its logarithm, over the density.
    pub open spec fn free_path(self, sample: Fixed) -> Fixed {
        self.neg_inv_density.spec_mul(spec_ln(sample))
    }

    /// What the medium answers to a ray that enters its boundary at
    /// `entry` and leaves it at `exit`, for the drawn number `sample`.  Both
    /// parameters are first cut to the window, and the entry to zero from
    /// below.  The ray is scattered where its free path ends before the exit,
    /// and passes otherwise.
    pub open spec fn spec_hit_between(
        self,
        ray: Ray,
        entry: Fixed,
        exit: Fixed,
        t_min: Fixed,
        t_max: Fixed,
        sample: Fixed,
    ) -> Option<HitRecord> {
        let first = entry.spec_max(t_min);
        let last = exit.spec_min(t_max);
        let start = first.spec_max(Fixed { raw: 0 });
        let path = self.free_path(sample);
        let t = start.spec_add(path);
        if first.raw >= last.raw {
            None
        } else if path.raw > last.spec_sub(start).raw {
            None
        } else {
            Some(
                HitRecord::spec_new(
                    ray,
                    t,
                    ray.spec_at(t),
                    Vec3 { x: Fixed { raw: ONE_RAW }, y: Fixed { raw: 0 }, z: Fixed { raw: 0 } },
                    self.phase_function,
                    Fixed { raw: 0 },
                    Fixed { raw: 0 },
                ),
            )
        }
    }

    /// What the medium answers where its boundary answered `entry` to the
    /// ray and `exit` to the ray behind the entry: nothing unless the ray
    /// crosses the boundary twice, else [`spec_hit_between`] of the two
    /// crossings.
    ///
    /// [`spec_hit_between`]: ConstantMedium::spec_hit_between
    pub open spec fn spec_answer(
        self,
        ray: Ray,
        entry: Option<HitRecord>,
        exit: Option<HitRecord>,
        t_min: Fixed,
        t_max: Fixed,
        sample: Fixed,
    ) -> Option<HitRecord> {
        match (entry, exit) {
            (Some(first), Some(last)) => self.spec_hit_between(
                ray,
                first.t,
                last.t,
                t_min,
                t_max,
                sample,
            ),
            _ => None,
        }
    }

    /// `r` is an answer that the medium may give to `ray`: its answer to
    /// what the boundary may answer over the whole line, then behind the
    /// entry, and to some number of the open unit interval.
    pub open spec fn may_hit(self, ray: Ray, t_min: Fixed, t_max: Fixed, r: Option<HitRecord>) -> bool
        decreases self, 0nat,
    {
        exists|entry: Option<HitRecord>, exit: Option<HitRecord>, sample: Fixed|
            #![trigger self.spec_answer(ray, entry, exit, t_min, t_max, sample)]
            {
                &&& self.boundary.may_hit(
                    ray,
                    Fixed { raw: i64::MIN },
                    Fixed { raw: i64::MAX },
                    entry,
                )
                &&& entry matches Some(first) ==> self.boundary.may_hit(
                    ray,
                    first.t.spec_add(Fixed { raw: SKIN_RAW }),
                    Fixed { raw: i64::MAX },
                    exit,
                )
                &&& 0 < sample.raw < ONE_RAW
                &&& r == self.spec_answer(ray, entry, exit, t_min, t_max, sample)
            }
    }

    pub open spec fn spec_bounding_box(self) -> Option<AABB>
        decreases self, 0nat,
    {
        self.boundary.spec_bounding_box()
    }

    pub fn hit_between(
        &self,
        ray: &Ray,
        entry: Fixed,
        exit: Fixed,
        t_min: Fixed,
        t_max: Fixed,
        sample: Fixed,
    ) -> (r: Option<HitRecord>)
        ensures
            r == self.spec_hit_between(*ray, entry, exit, t_min, t_max, sample),
    {
        let first = entry.max(t_min);
        let last = exit.min(t_max);
        if first.raw >= last.raw {
            return None;
        }
        let start = first.max(Fixed::zero());
        let distance_inside_boundary = last.sub(start);
        let hit_distance = self.neg_inv_density.mul(ln(sample));
        if hit_distance.raw > distance_inside_boundary.raw {
            return None;
        }
        let t = start.add(hit_distance);
        let p = ray.at(t);
        let n = Vec3::new(Fixed::one(), Fixed::zero(), Fixed::zero());
        Some(
            HitRecord::new(
                ray,
                t,
                &p,
                &n,
                share(&self.phase_function),
                Fixed::zero(),
                Fixed::zero(),
            ),
        )
    }

    /// Scatters the ray inside the boundary at a random depth, or lets it
    /// pass.
    pub fn hit(&self, ray: &Ray, t_min: Fixed, t_max: Fixed, rng: &mut RandomSource) -> (r: Option<
        HitRecord,
    >)
        ensures
            self.may_hit(*ray, t_min, t_max, r),
        decreases self,
    {
        let on_entry = self.boundary.hit(ray, Fixed::min_value(), Fixed::max_value(), rng);
        let ghost entry = on_entry;
        let first = match on_entry {
            Some(h) => h,
            None => {
                assert(self.spec_answer(*ray, entry, None, t_min, t_max, Fixed { raw: 1 }) is None);
                return None;
            },
        };
        let on_exit = self.boundary.hit(
            ray,
            first.t.add(Fixed::from_raw(SKIN_RAW)),
            Fixed::max_value(),
            rng,
        );
        let ghost exit = on_exit;
        let last = match on_exit {
            Some(h) => h,
            None => {
                assert(self.spec_answer(*ray, entry, exit, t_min, t_max, Fixed { raw: 1 }) is None);
                return None;
            },
        };
        let sample = rng.open_unit();
        let r = self.hit_between(ray, first.t, last.t, t_min, t_max, sample);
        assert(r == self.spec_answer(*ray, entry, exit, t_min, t_max, sample));
        r
    }

    pub fn bounding_box(&self) -> (r: Option<AABB>)
        ensures
            r == self.spec_bounding_box(),
        decreases self,
    {
        self.boundary.bounding_box()
    }
}

impl ConstantMedium {
    /// The free path in a medium of positive density is never negative.
    pub proof fn lemma_free_path_nonnegative(self, density: Fixed, sample: Fixed)
        requires
            density.raw > 0,
            self.neg_inv_density == (Fixed { raw: ONE_RAW }).spec_neg().spec_div(density),
            0 < sample.raw < ONE_RAW,
        ensures
            self.free_path(sample).raw >= 0,
    {
        let minus_one = (Fixed { raw: ONE_RAW }).spec_neg();
        lemma_negative_over_divisor(minus_one, density, density);
        lemma_ln_negative_below_one(sample);
        lemma_mul_of_nonpositive(self.neg_inv_density, spec_ln(sample));
    }

    /// For the same drawn number, a denser medium scatters a ray wherever a
    /// thinner medium does.
    pub proof fn lemma_denser_scatters_more(
        self,
        denser: ConstantMedium,
        density: Fixed,
        more: Fixed,
        ray: Ray,
        entry: Fixed,
        exit: Fixed,
        t_min: Fixed,
        t_max: Fixed,
        sample: Fixed,
    )
        requires
            0 < density.raw <= more.raw,
            self.neg_inv_density == (Fixed { raw: ONE_RAW }).spec_neg().spec_div(density),
            denser.neg_inv_density == (Fixed { raw: ONE_RAW }).spec_neg().spec_div(more),
            0 < sample.raw < ONE_RAW,
            self.spec_hit_between(ray, entry, exit, t_min, t_max, sample) is Some,
        ensures
            denser.spec_hit_between(ray, entry, exit, t_min, t_max, sample) is Some,
            denser.free_path(sample).raw <= self.free_path(sample).raw,
    {
        let minus_one = (Fixed { raw: ONE_RAW }).spec_neg();
        lemma_negative_over_divisor(minus_one, density, more);
        lemma_ln_negative_below_one(sample);
        lemma_mul_antitone(self.neg_inv_density, denser.neg_inv_density, spec_ln(sample));
    }
}

} // verus!
