//! Surface materials: how a ray scatters, and what a surface emits.

use vstd::prelude::*;
use std::rc::Rc;
use crate::fixed::Fixed;
use crate::fixed::ONE_RAW;
use crate::hittable::HitRecord;
use crate::random::RandomSource;
use crate::ray::Ray;
use crate::texture::Texture;
use crate::vec3::Color;
use crate::vec3::Point3;
use crate::vec3::Vec3;

verus! {

/// Number of draws after which the search for a point in the unit sphere
/// gives up and settles for its center.
pub const SAMPLE_TRIES: u32 = 64;

/// Raw representation of two.
pub const TWO_RAW: i64 = 0x2_0000_0000;

/// `v` mirrored at the plane with normal `n`.
pub open spec fn spec_reflect(v: Vec3, n: Vec3) -> Vec3 {
    v.spec_sub(n.spec_scale(v.spec_dot(n).spec_mul(Fixed { raw: TWO_RAW })))
}

/// Cosine of the angle of incidence, capped at one.
pub open spec fn incidence_cosine(v: Vec3, n: Vec3) -> Fixed {
    v.spec_neg().spec_dot(n).spec_min(Fixed { raw: ONE_RAW })
}

/// No refracted ray exists: the squared sine of the angle of incidence times
/// the squared ratio of the refractive indices exceeds one.
pub open spec fn total_internal_reflection(v: Vec3, n: Vec3, etai_over_etat: Fixed) -> bool {
    let cos_theta = incidence_cosine(v, n);
    let sin_theta_2 = Fixed { raw: ONE_RAW }.spec_sub(cos_theta.spec_mul(cos_theta));
    sin_theta_2.spec_mul(etai_over_etat).spec_mul(etai_over_etat).raw > ONE_RAW
}

/// Schlick's approximation of the share of light that a boundary reflects.
pub open spec fn spec_reflectance(cos_theta: Fixed, etai_over_etat: Fixed) -> Fixed {
    let one = Fixed { raw: ONE_RAW };
    let q = one.spec_sub(etai_over_etat).spec_div(one.spec_add(etai_over_etat));
    let r0 = q.spec_mul(q);
    let c = one.spec_sub(cos_theta);
    let c2 = c.spec_mul(c);
    let c5 = c2.spec_mul(c2).spec_mul(c);
    r0.spec_add(one.spec_sub(r0).spec_mul(c5))
}

/// Direction of `v` after it crosses a boundary with normal `n` by Snell's
/// law, together with the reflectance at that angle; nothing under total
/// internal reflection.
pub open spec fn spec_refract(v: Vec3, n: Vec3, etai_over_etat: Fixed) -> Option<(Vec3, Fixed)> {
    if total_internal_reflection(v, n, etai_over_etat) {
        None
    } else {
        let one = Fixed { raw: ONE_RAW };
        let cos_theta = incidence_cosine(v, n);
        let perp = v.spec_add(n.spec_scale(cos_theta)).spec_scale(etai_over_etat);
        let parallel = n.spec_scale(
            one.spec_sub(perp.spec_length_squared()).spec_abs().spec_sqrt().spec_neg(),
        );
        Some((perp.spec_add(parallel), spec_reflectance(cos_theta, etai_over_etat)))
    }
}

pub fn reflect(v: &Vec3, n: &Vec3) -> (r: Vec3)
    ensures
        r == spec_reflect(*v, *n),
{
    v.sub(n.scale(v.dot(*n).mul(Fixed::from_raw(TWO_RAW))))
}

pub fn reflectance(cos_theta: Fixed, etai_over_etat: Fixed) -> (r: Fixed)
    ensures
        r == spec_reflectance(cos_theta, etai_over_etat),
{
    let one = Fixed::one();
    let q = one.sub(etai_over_etat).div(one.add(etai_over_etat));
    let r0 = q.mul(q);
    let c = one.sub(cos_theta);
    let c2 = c.mul(c);
    let c5 = c2.mul(c2).mul(c);
    r0.add(one.sub(r0).mul(c5))
}

pub fn refract(v: &Vec3, n: &Vec3, etai_over_etat: Fixed) -> (r: Option<(Vec3, Fixed)>)
    ensures
        r == spec_refract(*v, *n, etai_over_etat),
{
    let one = Fixed::one();
    let cos_theta = v.neg().dot(*n).min(one);
    let sin_theta_2 = one.sub(cos_theta.mul(cos_theta));
    if sin_theta_2.mul(etai_over_etat).mul(etai_over_etat).raw > ONE_RAW {
        return None;
    }
    let perp = v.add(n.scale(cos_theta)).scale(etai_over_etat);
    let parallel = n.scale(one.sub(perp.length_squared()).abs().sqrt().neg());
    Some((perp.add(parallel), reflectance(cos_theta, etai_over_etat)))
}

/// `p` lies inside the unit sphere.
pub open spec fn inside_unit_sphere(p: Vec3) -> bool {
    p.spec_length_squared().raw < ONE_RAW
}

/// `p` lies in the cube from -1 to 1 that the search draws from.
pub open spec fn in_unit_cube(p: Vec3) -> bool {
    &&& -ONE_RAW <= p.x.raw < ONE_RAW
    &&& -ONE_RAW <= p.y.raw < ONE_RAW
    &&& -ONE_RAW <= p.z.raw < ONE_RAW
}

/// What the search for a point in the unit sphere makes of the points
/// `drawn`, taken in their order: the first that lies inside the sphere, and
/// the center where none does.
pub open spec fn spec_first_in_unit_sphere(drawn: Seq<Vec3>) -> Vec3
    decreases drawn.len(),
{
    if drawn.len() == 0 {
        Vec3::spec_zero()
    } else if inside_unit_sphere(drawn[0]) {
        drawn[0]
    } else {
        spec_first_in_unit_sphere(drawn.drop_first())
    }
}

/// `drawn` is a run of draws that the search may make: every point comes
/// from the cube, every point but the last lies outside the sphere, and the
/// run ends with the first point inside or after [`SAMPLE_TRIES`] draws.
pub open spec fn is_search(drawn: Seq<Vec3>) -> bool {
    &&& 1 <= drawn.len() <= SAMPLE_TRIES
    &&& forall|i: int| 0 <= i < drawn.len() ==> in_unit_cube(#[trigger] drawn[i])
    &&& forall|i: int| 0 <= i < drawn.len() - 1 ==> !inside_unit_sphere(#[trigger] drawn[i])
    &&& drawn.len() < SAMPLE_TRIES ==> inside_unit_sphere(drawn.last())
}

/// Points outside the sphere at the head of a run do not change what the
/// search makes of it.
pub proof fn lemma_rejected_are_skipped(rejected: Seq<Vec3>, rest: Seq<Vec3>)
    requires
        forall|i: int| 0 <= i < rejected.len() ==> !inside_unit_sphere(#[trigger] rejected[i]),
    ensures
        spec_first_in_unit_sphere(rejected + rest) == spec_first_in_unit_sphere(rest),
    decreases rejected.len(),
{
    if rejected.len() == 0 {
        assert(rejected + rest =~= rest);
    } else {
        let all = rejected + rest;
        assert(all[0] == rejected[0]);
        assert(all.drop_first() =~= rejected.drop_first() + rest);
        assert forall|i: int| 0 <= i < rejected.drop_first().len() implies !inside_unit_sphere(
            #[trigger] rejected.drop_first()[i],
        ) by {
            assert(rejected.drop_first()[i] == rejected[i + 1]);
        }
        lemma_rejected_are_skipped(rejected.drop_first(), rest);
    }
}

/// The first of the points `drawn` that lies inside the unit sphere, and
/// the center where none does.
pub fn first_in_unit_sphere(drawn: &Vec<Vec3>) -> (r: Vec3)
    ensures
        r == spec_first_in_unit_sphere(drawn@),
{
    let mut i: usize = 0;
    while i < drawn.len()
        invariant
            i <= drawn.len(),
            forall|k: int| 0 <= k < i ==> !inside_unit_sphere(#[trigger] drawn@[k]),
        decreases drawn.len() - i,
    {
        let p = drawn[i];
        if p.length_squared().raw < ONE_RAW {
            proof {
                let rest = drawn@.subrange(i as int, drawn@.len() as int);
                assert(drawn@ =~= drawn@.subrange(0, i as int) + rest);
                lemma_rejected_are_skipped(drawn@.subrange(0, i as int), rest);
                assert(rest[0] == p);
            }
            return p;
        }
        i = i + 1;
    }
    proof {
        assert(drawn@ =~= drawn@ + Seq::<Vec3>::empty());
        lemma_rejected_are_skipped(drawn@, Seq::<Vec3>::empty());
    }
    Vec3::zero()
}

/// A point inside the unit sphere: the first of at most [`SAMPLE_TRIES`]
/// draws from the cube around it that falls inside, else the center.
pub fn random_in_unit_sphere(rng: &mut RandomSource) -> (r: Vec3)
    ensures
        exists|drawn: Seq<Vec3>| is_search(drawn) && r == #[trigger] spec_first_in_unit_sphere(drawn),
        inside_unit_sphere(r),
        in_unit_cube(r),
{
    let lo = Fixed::one().neg();
    let hi = Fixed::from_raw(ONE_RAW);
    let ghost mut drawn: Seq<Vec3> = Seq::empty();
    let mut i: u32 = 0;
    while i < SAMPLE_TRIES
        invariant
            i <= SAMPLE_TRIES,
            lo.raw == -ONE_RAW,
            hi.raw == ONE_RAW,
            drawn.len() == i,
            forall|k: int| 0 <= k < drawn.len() ==> in_unit_cube(#[trigger] drawn[k]),
            forall|k: int| 0 <= k < drawn.len() ==> !inside_unit_sphere(#[trigger] drawn[k]),
        decreases SAMPLE_TRIES - i,
    {
        let p = Vec3::random_in(lo, hi, rng);
        if p.length_squared().raw < ONE_RAW {
            proof {
                let run = drawn.push(p);
                assert(run =~= drawn + seq![p]);
                lemma_rejected_are_skipped(drawn, seq![p]);
                assert(seq![p][0] == p);
                assert(spec_first_in_unit_sphere(seq![p]) == p);
                assert(run.last() == p);
                assert forall|k: int| 0 <= k < run.len() implies in_unit_cube(#[trigger] run[k]) by {
                    if k < drawn.len() {
                        assert(run[k] == drawn[k]);
                    }
                }
                assert forall|k: int| 0 <= k < run.len() - 1 implies !inside_unit_sphere(
                    #[trigger] run[k],
                ) by {
                    assert(run[k] == drawn[k]);
                }
                assert(is_search(run));
                assert(p == spec_first_in_unit_sphere(run));
            }
            return p;
        }
        proof {
            drawn = drawn.push(p);
        }
        i = i + 1;
    }
    proof {
        assert(drawn =~= drawn + Seq::<Vec3>::empty());
        lemma_rejected_are_skipped(drawn, Seq::<Vec3>::empty());
        assert(is_search(drawn));
        assert(Vec3::spec_zero() == spec_first_in_unit_sphere(drawn));
        crate::lemma_zero_times(Fixed { raw: 0 });
    }
    Vec3::zero()
}

/// A point of the unit sphere, drawn by scaling a point inside it to unit
/// length.
pub fn random_unit_vector(rng: &mut RandomSource) -> (r: Vec3)
    ensures
        exists|p: Vec3|
            inside_unit_sphere(p) && in_unit_cube(p) && r == #[trigger] p.spec_unit_vector(),
        r.within_unit(),
{
    let p = random_in_unit_sphere(rng);
    let r = p.unit_vector();
    assert(r == p.spec_unit_vector());
    r
}

/// A diffuse surface.
pub struct Lambertian {
    pub albedo: Rc<Texture>,
}

/// A mirror, blurred by `fuzz`.
pub struct Metal {
    pub albedo: Rc<Texture>,
    pub fuzz: Fixed,
}

/// A clear material such as glass.
pub struct Dielectric {
    pub index_of_refraction: Fixed,
}

/// A surface that emits light and scatters none.
pub struct DiffuseLight {
    pub emit: Rc<Texture>,
}

pub enum Material {
    Lambertian(Lambertian),
    Metal(Metal),
    Dielectric(Dielectric),
    DiffuseLight(DiffuseLight),
}

impl Lambertian {
    pub fn new(albedo: Rc<Texture>) -> (r: Lambertian)
        ensures
            r.albedo == albedo,
    {
        Lambertian { albedo }
    }

    /// The scattered ray for the drawn unit vector `unit`: it leaves the hit
    /// point along the normal plus `unit`, scaled to unit length, or along the
    /// normal itself where that sum is near zero.  The attenuation is the
    /// texture's color at the hit.
    pub open spec fn spec_scatter_with(self, ray: Ray, rec: HitRecord, unit: Vec3) -> Option<
        (Color, Ray),
    > {
        let direction = rec.normal.spec_add(unit);
        let attenuation = self.albedo.spec_value(rec.u, rec.v, rec.p);
        if direction.spec_near_zero() {
            Some((attenuation, Ray { orig: rec.p, dir: rec.normal, time: ray.time }))
        } else {
            Some(
                (attenuation, Ray { orig: rec.p, dir: direction.spec_unit_vector(), time: ray.time }),
            )
        }
    }

    /// The scattered ray for the drawn point `p` inside the unit sphere,
    /// which is first scaled to unit length.
    pub open spec fn spec_scatter_from(self, ray: Ray, rec: HitRecord, p: Vec3) -> Option<
        (Color, Ray),
    > {
        self.spec_scatter_with(ray, rec, p.spec_unit_vector())
    }

    /// `r` is what the surface may answer: the scattered ray for some point
    /// that the search for a point in the unit sphere may return.
    pub open spec fn may_scatter(self, ray: Ray, rec: HitRecord, r: Option<(Color, Ray)>) -> bool {
        exists|p: Vec3|
            inside_unit_sphere(p) && in_unit_cube(p) && r == #[trigger] self.spec_scatter_from(
                ray,
                rec,
                p,
            )
    }

    pub fn scatter_with(&self, ray: &Ray, rec: &HitRecord, unit: Vec3) -> (r: Option<(Color, Ray)>)
        ensures
            r == self.spec_scatter_with(*ray, *rec, unit),
            r matches Some(s) && (rec.normal.within_unit() ==> s.1.dir.within_unit()),
    {
        let direction = rec.normal.add(unit);
        let attenuation = self.albedo.value(rec.u, rec.v, &rec.p);
        if direction.near_zero() {
            Some((attenuation, Ray::new(&rec.p, &rec.normal, ray.t())))
        } else {
            Some((attenuation, Ray::new(&rec.p, &direction.unit_vector(), ray.t())))
        }
    }

    /// Scatters along the normal plus a random unit vector.
    pub fn scatter(&self, ray: &Ray, rec: &HitRecord, rng: &mut RandomSource) -> (r: Option<
        (Color, Ray),
    >)
        ensures
            r matches Some(s) && s.0 == self.albedo.spec_value(rec.u, rec.v, rec.p) && s.1.orig
                == rec.p && s.1.time == ray.time && (rec.normal.within_unit()
                ==> s.1.dir.within_unit()),
            self.may_scatter(*ray, *rec, r),
    {
        let unit = random_unit_vector(rng);
        let r = self.scatter_with(ray, rec, unit);
        proof {
            let p = choose|p: Vec3|
                inside_unit_sphere(p) && in_unit_cube(p) && unit == #[trigger] p.spec_unit_vector();
            assert(r == self.spec_scatter_from(*ray, *rec, p));
        }
        r
    }
}

impl Metal {
    /// A metal whose fuzz is `fuzz` brought into the interval from 0 to 1.
    pub fn new(albedo: Rc<Texture>, fuzz: Fixed) -> (r: Metal)
        ensures
            r.albedo == albedo,
            r.fuzz == fuzz.spec_clamp(Fixed { raw: 0 }, Fixed { raw: ONE_RAW }),
    {
        Metal { albedo, fuzz: fuzz.clamp(Fixed::zero(), Fixed::one()) }
    }

    /// Direction of the scattered ray for the drawn point `offset` of the unit
    /// sphere: the mirrored direction plus `fuzz` times `offset`, scaled to
    /// unit length.
    pub open spec fn scatter_direction(self, ray: Ray, rec: HitRecord, offset: Vec3) -> Vec3 {
        spec_reflect(ray.dir, rec.normal).spec_add(offset.spec_scale(self.fuzz)).spec_unit_vector()
    }

    /// The scattered ray for the drawn point `offset`; nothing where the
    /// scattered direction does not leave the surface.
    pub open spec fn spec_scatter_with(self, ray: Ray, rec: HitRecord, offset: Vec3) -> Option<
        (Color, Ray),
    > {
        let direction = self.scatter_direction(ray, rec, offset);
        if direction.spec_dot(rec.normal).raw > 0 {
            Some(
                (
                    self.albedo.spec_value(rec.u, rec.v, rec.p),
                    Ray { orig: rec.p, dir: direction, time: ray.time },
                ),
            )
        } else {
            None
        }
    }

    /// `r` is what the surface may answer: the scattered ray for some point
    /// that the search for a point in the unit sphere may return.
    pub open spec fn may_scatter(self, ray: Ray, rec: HitRecord, r: Option<(Color, Ray)>) -> bool {
        exists|offset: Vec3|
            inside_unit_sphere(offset) && in_unit_cube(offset) && r
                == #[trigger] self.spec_scatter_with(ray, rec, offset)
    }

    pub fn scatter_with(&self, ray: &Ray, rec: &HitRecord, offset: Vec3) -> (r: Option<
        (Color, Ray),
    >)
        ensures
            r == self.spec_scatter_with(*ray, *rec, offset),
            r matches Some(s) ==> s.1.dir.within_unit(),
    {
        let reflected = reflect(&ray.dir(), &rec.normal);
        let direction = reflected.add(offset.scale(self.fuzz)).unit_vector();
        if direction.dot(rec.normal).raw > 0 {
            let attenuation = self.albedo.value(rec.u, rec.v, &rec.p);
            Some((attenuation, Ray::new(&rec.p, &direction, ray.t())))
        } else {
            None
        }
    }

    /// Mirrors the ray and blurs it by a random point of the unit sphere.
    pub fn scatter(&self, ray: &Ray, rec: &HitRecord, rng: &mut RandomSource) -> (r: Option<
        (Color, Ray),
    >)
        ensures
            self.may_scatter(*ray, *rec, r),
            r matches Some(s) ==> s.0 == self.albedo.spec_value(rec.u, rec.v, rec.p) && s.1.orig
                == rec.p && s.1.time == ray.time && s.1.dir.spec_dot(rec.normal).raw > 0
                && s.1.dir.within_unit(),
    {
        let offset = random_in_unit_sphere(rng);
        self.scatter_with(ray, rec, offset)
    }
}

impl Dielectric {
    pub fn new(index_of_refraction: Fixed) -> (r: Dielectric)
        ensures
            r.index_of_refraction == index_of_refraction,
    {
        Dielectric { index_of_refraction }
    }

    /// Ratio of the refractive indices that the ray passes between: the
    /// inverse of the material's index on the way in, the index on the way out.
    pub open spec fn refraction_ratio(self, rec: HitRecord) -> Fixed {
        if rec.front_face {
            Fixed { raw: ONE_RAW }.spec_div(self.index_of_refraction)
        } else {
            self.index_of_refraction
        }
    }

    /// Direction of the scattered ray for the drawn number `sample` of the
    /// unit interval: mirrored under total internal reflection and where
    /// `sample` lies below the reflectance, refracted otherwise.
    pub open spec fn scatter_direction(self, ray: Ray, rec: HitRecord, sample: Fixed) -> Vec3 {
        match spec_refract(ray.dir, rec.normal, self.refraction_ratio(rec)) {
            Some((refracted, reflectance)) => if sample.raw < reflectance.raw {
                spec_reflect(ray.dir, rec.normal)
            } else {
                refracted
            },
            None => spec_reflect(ray.dir, rec.normal),
        }
    }

    /// The scattered ray for the drawn number `sample`; the attenuation is
    /// white.
    pub open spec fn spec_scatter_with(self, ray: Ray, rec: HitRecord, sample: Fixed) -> Option<
        (Color, Ray),
    > {
        let one = Fixed { raw: ONE_RAW };
        Some(
            (
                Vec3 { x: one, y: one, z: one },
                Ray { orig: rec.p, dir: self.scatter_direction(ray, rec, sample), time: ray.time },
            ),
        )
    }

    pub fn scatter_with(&self, ray: &Ray, rec: &HitRecord, sample: Fixed) -> (r: Option<
        (Color, Ray),
    >)
        ensures
            r == self.spec_scatter_with(*ray, *rec, sample),
    {
        let ratio = if rec.front_face {
            Fixed::one().div(self.index_of_refraction)
        } else {
            self.index_of_refraction
        };
        let direction = match refract(&ray.dir(), &rec.normal, ratio) {
            Some((refracted, reflectance)) => if sample.raw < reflectance.raw {
                reflect(&ray.dir(), &rec.normal)
            } else {
                refracted
            },
            None => reflect(&ray.dir(), &rec.normal),
        };
        Some((Vec3::new(Fixed::one(), Fixed::one(), Fixed::one()), Ray::new(&rec.p, &direction, ray.t())))
    }

    /// Reflects or refracts the ray, by a random number against the
    /// reflectance.  Under total internal reflection the ray is always
    /// mirrored.
    pub fn scatter(&self, ray: &Ray, rec: &HitRecord, rng: &mut RandomSource) -> (r: Option<
        (Color, Ray),
    >)
        ensures
            exists|sample: Fixed|
                0 <= sample.raw < ONE_RAW && r == #[trigger] self.spec_scatter_with(
                    *ray,
                    *rec,
                    sample,
                ),
            r matches Some(s) && s.0 == (Vec3 {
                x: Fixed { raw: ONE_RAW },
                y: Fixed { raw: ONE_RAW },
                z: Fixed { raw: ONE_RAW },
            }) && s.1.orig == rec.p && s.1.time == ray.time,
            total_internal_reflection(ray.dir, rec.normal, self.refraction_ratio(*rec)) ==> r == Some(
                (
                    Vec3 {
                        x: Fixed { raw: ONE_RAW },
                        y: Fixed { raw: ONE_RAW },
                        z: Fixed { raw: ONE_RAW },
                    },
                    Ray { orig: rec.p, dir: spec_reflect(ray.dir, rec.normal), time: ray.time },
                ),
            ),
    {
        let sample = rng.unit();
        self.scatter_with(ray, rec, sample)
    }
}

impl DiffuseLight {
    pub fn new(emit: Rc<Texture>) -> (r: DiffuseLight)
        ensures
            r.emit == emit,
    {
        DiffuseLight { emit }
    }

    /// The texture's color, whichever side of the surface is seen.
    pub open spec fn spec_emitted(self, u: Fixed, v: Fixed, p: Point3) -> Color {
        self.emit.spec_value(u, v, p)
    }

    pub fn emitted(&self, u: Fixed, v: Fixed, p: &Point3) -> (r: Color)
        ensures
            r == self.spec_emitted(u, v, *p),
    {
        self.emit.value(u, v, p)
    }
}

impl Material {
    /// Light that the surface gives off by itself: black for every material
    /// but a light.
    pub open spec fn spec_emitted(&self, u: Fixed, v: Fixed, p: Point3) -> Color {
        match *self {
            Material::DiffuseLight(l) => l.spec_emitted(u, v, p),
            _ => Vec3::spec_zero(),
        }
    }

    /// `r` is what the material may answer to a ray that hit it as `rec`
    /// records.
    pub open spec fn scatters_to(&self, ray: Ray, rec: HitRecord, r: Option<(Color, Ray)>) -> bool {
        match *self {
            Material::Lambertian(m) => m.may_scatter(ray, rec, r),
            Material::Metal(m) => m.may_scatter(ray, rec, r),
            Material::Dielectric(m) => exists|sample: Fixed|
                0 <= sample.raw < ONE_RAW && r == #[trigger] m.spec_scatter_with(ray, rec, sample),
            Material::DiffuseLight(_) => r is None,
        }
    }

    /// The attenuation and the scattered ray, or nothing where the surface
    /// absorbs the ray.
    pub fn scatter(&self, ray: &Ray, rec: &HitRecord, rng: &mut RandomSource) -> (r: Option<
        (Color, Ray),
    >)
        ensures
            self.scatters_to(*ray, *rec, r),
            self is DiffuseLight ==> r is None,
            self is Lambertian || self is Dielectric ==> r is Some,
            r matches Some(s) ==> s.1.orig == rec.p && s.1.time == ray.time,
    {
        match self {
            Material::Lambertian(m) => m.scatter(ray, rec, rng),
            Material::Metal(m) => m.scatter(ray, rec, rng),
            Material::Dielectric(m) => m.scatter(ray, rec, rng),
            Material::DiffuseLight(_) => None,
        }
    }

    pub fn emitted(&self, u: Fixed, v: Fixed, p: &Point3) -> (r: Color)
        ensures
            r == self.spec_emitted(u, v, *p),
    {
        match self {
            Material::DiffuseLight(l) => l.emitted(u, v, p),
            _ => Vec3::zero(),
        }
    }
}

/// The ray that a diffuse or a metal surface scatters has a direction whose
/// components lie between -1 and 1, whatever was drawn: the direction is
/// scaled to unit length, or is the normal of the record, whose components
/// lie there.
pub proof fn lemma_scattered_direction_within_unit(
    material: Material,
    ray: Ray,
    rec: HitRecord,
    r: Option<(Color, Ray)>,
)
    requires
        material is Lambertian || material is Metal,
        material.scatters_to(ray, rec, r),
        rec.normal.within_unit(),
    ensures
        r matches Some(s) ==> s.1.dir.within_unit(),
{
}

} // verus!
