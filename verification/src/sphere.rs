//! Spheres, at rest and in motion.

use vstd::prelude::*;
use vstd::arithmetic::div_mod::lemma_fundamental_div_mod;
use std::rc::Rc;
use crate::bbox::AABB;
use crate::elementary::acos;
use crate::elementary::atan2;
use crate::elementary::spec_acos;
use crate::elementary::spec_atan2;
use crate::elementary::PI_RAW;
use crate::elementary::TWO_PI_RAW;
use crate::fixed::lemma_div_monotone_nonnegative;
use crate::fixed::lemma_sqrt_nonnegative;
use crate::fixed::lemma_square_nonnegative;
use crate::fixed::Fixed;
use crate::fixed::ONE_RAW;
use crate::hittable::inside_window;
use crate::hittable::HitRecord;
use crate::material::Material;
use crate::ray::Ray;
use crate::shared::share;
use crate::vec3::Point3;
use crate::vec3::Vec3;

verus! {

/// Raw bound on the distances for which [`lemma_sphere_in_range`] shows
/// that the quadratic of a sphere is worked out without saturation: 8192.
pub const RANGE_RAW: i64 = 0x2000_0000_0000;

/// The coefficients of the quadratic whose roots are the parameters at
/// which a ray meets a sphere, and its discriminant.
pub struct SphereTerms {
    pub a: Fixed,
    pub half_b: Fixed,
    pub c: Fixed,
    pub discriminant: Fixed,
}

/// The quadratic of `ray` and the sphere: with `oc` from the center to the
/// origin of the ray, `a` is the squared length of the direction, `half_b`
/// the product of `oc` and the direction, and `c` the squared length of `oc`
/// less the squared radius.
pub open spec fn spec_sphere_terms(center: Point3, radius: Fixed, ray: Ray) -> SphereTerms {
    let oc = ray.orig.spec_sub(center);
    let a = ray.dir.spec_length_squared();
    let half_b = oc.spec_dot(ray.dir);
    let c = oc.spec_dot(oc).spec_sub(radius.spec_mul(radius));
    SphereTerms { a, half_b, c, discriminant: half_b.spec_mul(half_b).spec_sub(a.spec_mul(c)) }
}

/// The two parameters at which `ray` meets the sphere, the nearer first;
/// nothing where the ray misses the sphere.
pub open spec fn sphere_roots(center: Point3, radius: Fixed, ray: Ray) -> Option<(Fixed, Fixed)> {
    let t = spec_sphere_terms(center, radius, ray);
    if t.discriminant.raw < 0 {
        None
    } else {
        let sqrtd = t.discriminant.spec_sqrt();
        Some(
            (
                t.half_b.spec_neg().spec_sub(sqrtd).spec_div(t.a),
                t.half_b.spec_neg().spec_add(sqrtd).spec_div(t.a),
            ),
        )
    }
}

/// The product of two numbers rounded down, before it is cut to the range
/// of the numbers.
pub open spec fn exact_product(a: Fixed, b: Fixed) -> int {
    (a.raw * b.raw) / (ONE_RAW as int)
}

/// The sphere lies within [`RANGE_RAW`] of the origin of the ray on every
/// axis, its radius is no larger, and the direction of the ray has no
/// component beyond -1 and 1.
pub open spec fn sphere_in_range(center: Point3, radius: Fixed, ray: Ray) -> bool {
    let oc = ray.orig.spec_sub(center);
    &&& ray.dir.within_unit()
    &&& -RANGE_RAW <= oc.x.raw <= RANGE_RAW
    &&& -RANGE_RAW <= oc.y.raw <= RANGE_RAW
    &&& -RANGE_RAW <= oc.z.raw <= RANGE_RAW
    &&& 0 <= radius.raw <= RANGE_RAW
}

/// A product of two bounded numbers is the exact product rounded down, and
/// bounded by the product of the bounds.
pub proof fn lemma_product_in_range(a: Fixed, b: Fixed, bound_a: int, bound_b: int, bound: int)
    requires
        -bound_a <= a.raw <= bound_a,
        -bound_b <= b.raw <= bound_b,
        bound_a * bound_b <= bound * ONE_RAW,
        0 <= bound < i64::MAX,
    ensures
        a.spec_mul(b).raw == exact_product(a, b),
        -bound <= a.spec_mul(b).raw <= bound,
{
    let s = ONE_RAW as int;
    let p = a.raw * b.raw;
    assert(-(bound * s) <= p <= bound * s) by (nonlinear_arith)
        requires
            p == a.raw * b.raw,
            -bound_a <= a.raw <= bound_a,
            -bound_b <= b.raw <= bound_b,
            bound_a * bound_b <= bound * s,
    ;
    assert((-bound) * s == -(bound * s) && (bound + 1) * s == bound * s + s) by (nonlinear_arith);
    crate::fixed::lemma_quotient_bounds(p, s, -bound, bound + 1);
}

/// Within the range of [`sphere_in_range`] no step of the quadratic
/// saturates: every coefficient is the sum of exact products rounded down,
/// each product short of the next multiple of `2^-32` by less than one, and
/// the discriminant stays inside the range of the numbers.  Where the
/// direction is at least half a unit long, neither root saturates.
pub proof fn lemma_sphere_in_range(center: Point3, radius: Fixed, ray: Ray)
    requires
        sphere_in_range(center, radius, ray),
    ensures
        ({
            let oc = ray.orig.spec_sub(center);
            let d = ray.dir;
            let t = spec_sphere_terms(center, radius, ray);
            &&& t.a.raw == exact_product(d.x, d.x) + exact_product(d.y, d.y) + exact_product(
                d.z,
                d.z,
            )
            &&& t.half_b.raw == exact_product(oc.x, d.x) + exact_product(oc.y, d.y) + exact_product(
                oc.z,
                d.z,
            )
            &&& t.c.raw == exact_product(oc.x, oc.x) + exact_product(oc.y, oc.y) + exact_product(
                oc.z,
                oc.z,
            ) - exact_product(radius, radius)
            &&& t.discriminant.raw == exact_product(t.half_b, t.half_b) - exact_product(t.a, t.c)
            &&& 0 <= t.a.raw <= 3 * ONE_RAW
            &&& -3 * RANGE_RAW <= t.half_b.raw <= 3 * RANGE_RAW
            &&& -0x1000_0000_0000_0000 <= t.c.raw <= 0x1000_0000_0000_0000
            &&& -0x6000_0000_0000_0000 <= t.discriminant.raw <= 0x6000_0000_0000_0000
            &&& t.a.raw >= 0x4000_0000 ==> (sphere_roots(center, radius, ray) matches Some(roots)
                ==> -0x10_0000_0000_0000 <= roots.0.raw <= roots.1.raw <= 0x10_0000_0000_0000)
        }),
{
    let s = ONE_RAW as int;
    let oc = ray.orig.spec_sub(center);
    let d = ray.dir;
    let t = spec_sphere_terms(center, radius, ray);
    let r = RANGE_RAW as int;
    lemma_product_in_range(d.x, d.x, s, s, s);
    lemma_product_in_range(d.y, d.y, s, s, s);
    lemma_product_in_range(d.z, d.z, s, s, s);
    lemma_square_nonnegative(d.x);
    lemma_square_nonnegative(d.y);
    lemma_square_nonnegative(d.z);
    lemma_product_in_range(oc.x, d.x, r, s, r);
    lemma_product_in_range(oc.y, d.y, r, s, r);
    lemma_product_in_range(oc.z, d.z, r, s, r);
    lemma_product_in_range(oc.x, oc.x, r, r, 0x400_0000_0000_0000);
    lemma_product_in_range(oc.y, oc.y, r, r, 0x400_0000_0000_0000);
    lemma_product_in_range(oc.z, oc.z, r, r, 0x400_0000_0000_0000);
    lemma_product_in_range(radius, radius, r, r, 0x400_0000_0000_0000);
    lemma_square_nonnegative(oc.x);
    lemma_square_nonnegative(oc.y);
    lemma_square_nonnegative(oc.z);
    lemma_square_nonnegative(radius);
    assert(0 <= t.a.raw <= 3 * s);
    assert(-3 * r <= t.half_b.raw <= 3 * r);
    assert(-0x400_0000_0000_0000 <= t.c.raw <= 0xc00_0000_0000_0000);
    lemma_product_in_range(t.half_b, t.half_b, 3 * r, 3 * r, 0x2400_0000_0000_0000);
    lemma_square_nonnegative(t.half_b);
    lemma_product_in_range(t.a, t.c, 3 * s, 0xc00_0000_0000_0000, 0x2400_0000_0000_0000);
    if t.a.raw >= 0x4000_0000 && t.discriminant.raw >= 0 {
        lemma_sphere_roots_ordered(center, radius, ray);
        let sqrtd = t.discriminant.spec_sqrt();
        crate::fixed::lemma_sqrt_nonnegative(t.discriminant);
        if t.discriminant.raw > 0 {
            let n = t.discriminant.raw * s;
            crate::fixed::lemma_floor_sqrt_exists(n);
            let root = crate::fixed::floor_sqrt(n);
            assert(root < 0x1_0000_0000_0000) by (nonlinear_arith)
                requires
                    root * root <= n,
                    n == t.discriminant.raw * s,
                    t.discriminant.raw <= 0x6000_0000_0000_0000,
                    s == 0x1_0000_0000,
                    root >= 0,
            ;
        }
        assert(0 <= sqrtd.raw < 0x1_0000_0000_0000);
        let lo = t.half_b.spec_neg().spec_sub(sqrtd);
        let hi = t.half_b.spec_neg().spec_add(sqrtd);
        assert(-0x2_0000_0000_0000 <= lo.raw <= hi.raw <= 0x2_0000_0000_0000);
        let a = t.a.raw as int;
        assert((-0x10_0000_0000_0000) * a <= lo.raw * s && hi.raw * s < 0x10_0000_0000_0001
            * a) by (nonlinear_arith)
            requires
                -0x2_0000_0000_0000 <= lo.raw <= hi.raw <= 0x2_0000_0000_0000,
                a >= 0x4000_0000,
                s == 0x1_0000_0000,
        ;
        assert(lo.raw * s <= hi.raw * s) by (nonlinear_arith)
            requires
                lo.raw <= hi.raw,
                s > 0,
        ;
        crate::fixed::lemma_quotient_bounds(lo.raw * s, a, -0x10_0000_0000_0000, 0x10_0000_0000_0001);
        crate::fixed::lemma_quotient_bounds(hi.raw * s, a, -0x10_0000_0000_0000, 0x10_0000_0000_0001);
    }
}

/// What one axis adds to the quadratic of a ray along an axis that starts
/// `d` before the center: nothing on an axis across the ray, and on the axis
/// of the ray the exact terms.
pub proof fn lemma_axis_component(dk: Fixed, ock: Fixed, d: Fixed)
    requires
        dk.raw == 0 || dk.raw == ONE_RAW || dk.raw == -ONE_RAW,
        ock == dk.spec_mul(d).spec_neg(),
        0 <= d.raw <= RANGE_RAW,
    ensures
        dk.raw == 0 ==> ock.raw == 0 && exact_product(dk, dk) == 0 && exact_product(ock, dk) == 0
            && exact_product(ock, ock) == 0,
        dk.raw != 0 ==> (ock.raw == d.raw || ock.raw == -d.raw) && exact_product(dk, dk)
            == ONE_RAW && exact_product(ock, dk) == -d.raw && exact_product(ock, ock) == (d.raw
            * d.raw) / (ONE_RAW as int),
{
    let s = ONE_RAW as int;
    let x = d.raw as int;
    vstd::arithmetic::div_mod::lemma_div_multiples_vanish(x, s);
    vstd::arithmetic::div_mod::lemma_div_multiples_vanish(-x, s);
    vstd::arithmetic::div_mod::lemma_div_multiples_vanish(s, s);
    assert(s * x == x * s && (-s) * x == (-x) * s && 0 * x == 0 && s * s == s * s && (-s) * (-s)
        == s * s && (-x) * s == -(x * s) && x * (-s) == (-x) * s && (-x) * (-x) == x * x)
        by (nonlinear_arith);
    assert(s * (-x) == (-x) * s) by (nonlinear_arith);
    if dk.raw == 0 {
        assert(0 * 0 == 0) by (nonlinear_arith);
    } else if dk.raw == ONE_RAW {
        assert(dk.spec_mul(d).raw == x);
        assert(ock.raw == -x);
    } else {
        assert(dk.spec_mul(d).raw == -x);
        assert(ock.raw == x);
    }
}

/// A ray along an axis, aimed at the center of a sphere from the distance
/// `d`, hits the sphere at `d` less the radius, to one unit in the last
/// place.  This holds of radii above one half and distances within
/// [`RANGE_RAW`], wherever the hit lies strictly inside the window.
pub proof fn lemma_sphere_round_trip_along_axis(
    center: Point3,
    radius: Fixed,
    material: Rc<Material>,
    ray: Ray,
    d: Fixed,
    t_min: Fixed,
    t_max: Fixed,
)
    requires
        ray.dir.x.raw == 0 || ray.dir.x.raw == ONE_RAW || ray.dir.x.raw == -ONE_RAW,
        ray.dir.y.raw == 0 || ray.dir.y.raw == ONE_RAW || ray.dir.y.raw == -ONE_RAW,
        ray.dir.z.raw == 0 || ray.dir.z.raw == ONE_RAW || ray.dir.z.raw == -ONE_RAW,
        ray.dir.spec_largest() == ONE_RAW,
        (ray.dir.x.raw == 0 && ray.dir.y.raw == 0) || (ray.dir.x.raw == 0 && ray.dir.z.raw == 0) || (
        ray.dir.y.raw == 0 && ray.dir.z.raw == 0),
        ray.orig.spec_sub(center) == ray.dir.spec_scale(d).spec_neg(),
        0x8000_0000 < radius.raw < d.raw <= RANGE_RAW,
        t_min.raw < d.raw - radius.raw,
        d.raw - radius.raw + 1 < t_max.raw,
    ensures
        spec_sphere_hit(center, radius, material, ray, t_min, t_max) matches Some(rec) && d.raw
            - radius.raw <= rec.t.raw <= d.raw - radius.raw + 1,
{
    let s = ONE_RAW as int;
    let oc = ray.orig.spec_sub(center);
    let dv = ray.dir;
    lemma_axis_component(dv.x, oc.x, d);
    lemma_axis_component(dv.y, oc.y, d);
    lemma_axis_component(dv.z, oc.z, d);
    assert(sphere_in_range(center, radius, ray));
    lemma_sphere_in_range(center, radius, ray);
    let t = spec_sphere_terms(center, radius, ray);
    let big = (d.raw * d.raw) / s;
    let small = exact_product(radius, radius);
    assert(t.a.raw == s);
    assert(t.half_b.raw == -d.raw);
    assert(t.c.raw == big - small);
    assert(exact_product(t.half_b, t.half_b) == big) by {
        assert((-d.raw) * (-d.raw) == d.raw * d.raw) by (nonlinear_arith);
    }
    assert(exact_product(t.a, t.c) == t.c.raw) by {
        vstd::arithmetic::div_mod::lemma_div_multiples_vanish(t.c.raw as int, s);
        assert(s * t.c.raw == t.c.raw * s) by (nonlinear_arith);
    }
    assert(t.discriminant.raw == small);
    let r = radius.raw as int;
    lemma_fundamental_div_mod(r * r, s);
    assert(0 <= (r * r) % s < s);
    assert(small * s <= r * r < small * s + s) by (nonlinear_arith)
        requires
            r * r == s * small + (r * r) % s,
            0 <= (r * r) % s < s,
    ;
    assert(small > 0) by (nonlinear_arith)
        requires
            r * r < small * s + s,
            r > 0x8000_0000,
            s == 0x1_0000_0000,
    ;
    let n = small * s;
    crate::fixed::lemma_floor_sqrt_exists(n);
    let q = crate::fixed::floor_sqrt(n);
    assert(crate::fixed::is_floor_sqrt(n, q));
    assert(r - 1 <= q <= r) by (nonlinear_arith)
        requires
            q * q <= n,
            n < (q + 1) * (q + 1),
            n <= r * r,
            r * r < n + s,
            r > 0x8000_0000,
            s == 0x1_0000_0000,
            q >= 0,
    ;
    assert(t.discriminant.raw * ONE_RAW == n);
    assert(t.discriminant.spec_sqrt().raw == q);
    let lo = t.half_b.spec_neg().spec_sub(t.discriminant.spec_sqrt());
    assert(lo.raw == d.raw - q);
    vstd::arithmetic::div_mod::lemma_div_multiples_vanish(d.raw - q, s);
    assert(lo.spec_div(t.a).raw == d.raw - q);
}

/// One axis of the record of a ray along an axis that hits the sphere at
/// `t`, which lies the radius or one unit less before the center: across
/// the ray the hit point stays level with the center and the normal is zero;
/// along the ray the hit point lies the radius or one unit less from the
/// center, and the normal is opposite to the direction to two units in the
/// last place.
pub proof fn lemma_axis_record(
    dk: Fixed,
    origin: Fixed,
    center: Fixed,
    d: Fixed,
    t: Fixed,
    radius: Fixed,
)
    requires
        dk.raw == 0 || dk.raw == ONE_RAW || dk.raw == -ONE_RAW,
        origin.spec_sub(center) == dk.spec_mul(d).spec_neg(),
        -0x2000_0000_0000_0000 <= origin.raw <= 0x2000_0000_0000_0000,
        -0x2000_0000_0000_0000 <= center.raw <= 0x2000_0000_0000_0000,
        0x8000_0000 < radius.raw < d.raw <= RANGE_RAW,
        radius.raw - 1 <= d.raw - t.raw <= radius.raw,
    ensures
        ({
            let p = origin.spec_add(dk.spec_mul(t));
            let n = p.spec_sub(center).spec_div(radius);
            &&& dk.raw == 0 ==> p == origin && n.raw == 0 && dk.spec_mul(n).raw == 0
            &&& dk.raw == ONE_RAW ==> p.raw - center.raw == t.raw - d.raw && -ONE_RAW <= n.raw
                <= -ONE_RAW + 1
            &&& dk.raw == -ONE_RAW ==> p.raw - center.raw == d.raw - t.raw && ONE_RAW - 2 <= n.raw
                <= ONE_RAW
            &&& dk.raw != 0 ==> -ONE_RAW <= dk.spec_mul(n).raw <= -ONE_RAW + 2
        }),
{
    let s = ONE_RAW as int;
    let r = radius.raw as int;
    let q = d.raw - t.raw;
    vstd::arithmetic::div_mod::lemma_div_multiples_vanish(d.raw as int, s);
    vstd::arithmetic::div_mod::lemma_div_multiples_vanish(-d.raw, s);
    vstd::arithmetic::div_mod::lemma_div_multiples_vanish(t.raw as int, s);
    vstd::arithmetic::div_mod::lemma_div_multiples_vanish(-t.raw, s);
    assert(s * d.raw == d.raw * s && (-s) * d.raw == (-d.raw) * s && s * t.raw == t.raw * s && (-s)
        * t.raw == (-t.raw) * s && 0 * d.raw == 0 && 0 * t.raw == 0) by (nonlinear_arith);
    let p = origin.spec_add(dk.spec_mul(t));
    let n = p.spec_sub(center).spec_div(radius);
    if dk.raw == 0 {
        assert(dk.spec_mul(t).raw == 0);
        assert(p == origin);
        assert(p.spec_sub(center).raw == 0);
        assert(0 * s == 0) by (nonlinear_arith);
        assert(n.raw == 0);
        assert(0 * n.raw == 0) by (nonlinear_arith);
    } else if dk.raw == ONE_RAW {
        assert(dk.spec_mul(t).raw == t.raw);
        assert(dk.spec_mul(d).raw == d.raw);
        assert(origin.raw - center.raw == -d.raw);
        assert(p.spec_sub(center).raw == -q);
        assert((-s) * r <= (-q) * s < (-s + 2) * r) by (nonlinear_arith)
            requires
                r - 1 <= q <= r,
                r > 0x8000_0000,
                s == 0x1_0000_0000,
        ;
        crate::fixed::lemma_quotient_bounds((-q) * s, r, -s, -s + 2);
        vstd::arithmetic::div_mod::lemma_div_multiples_vanish(n.raw as int, s);
        assert(s * n.raw == n.raw * s) by (nonlinear_arith);
    } else {
        assert(dk.spec_mul(t).raw == -t.raw);
        assert(dk.spec_mul(d).raw == -d.raw);
        assert(origin.raw - center.raw == d.raw);
        assert(p.spec_sub(center).raw == q);
        assert((s - 2) * r <= q * s < (s + 1) * r) by (nonlinear_arith)
            requires
                r - 1 <= q <= r,
                r > 0x8000_0000,
                s == 0x1_0000_0000,
        ;
        crate::fixed::lemma_quotient_bounds(q * s, r, s - 2, s + 1);
        vstd::arithmetic::div_mod::lemma_div_multiples_vanish(-n.raw, s);
        assert((-s) * n.raw == (-n.raw) * s) by (nonlinear_arith);
    }
}

/// The record of a ray along an axis that is aimed at the center of a
/// sphere: the hit is on the front face, the hit point lies on the ray, on
/// the axis through the center and the radius or one unit less from the
/// center, and the normal is opposite to the direction of the ray to two
/// units in the last place.  This holds of radii above one half, distances
/// within [`RANGE_RAW`] and points within `2^29` of the origin.
pub proof fn lemma_sphere_record_along_axis(
    center: Point3,
    radius: Fixed,
    material: Rc<Material>,
    ray: Ray,
    d: Fixed,
    t_min: Fixed,
    t_max: Fixed,
)
    requires
        ray.dir.x.raw == 0 || ray.dir.x.raw == ONE_RAW || ray.dir.x.raw == -ONE_RAW,
        ray.dir.y.raw == 0 || ray.dir.y.raw == ONE_RAW || ray.dir.y.raw == -ONE_RAW,
        ray.dir.z.raw == 0 || ray.dir.z.raw == ONE_RAW || ray.dir.z.raw == -ONE_RAW,
        ray.dir.spec_largest() == ONE_RAW,
        (ray.dir.x.raw == 0 && ray.dir.y.raw == 0) || (ray.dir.x.raw == 0 && ray.dir.z.raw == 0) || (
        ray.dir.y.raw == 0 && ray.dir.z.raw == 0),
        ray.orig.spec_sub(center) == ray.dir.spec_scale(d).spec_neg(),
        0x8000_0000 < radius.raw < d.raw <= RANGE_RAW,
        t_min.raw < d.raw - radius.raw,
        d.raw - radius.raw + 1 < t_max.raw,
        ray.orig.spec_largest() <= 0x2000_0000_0000_0000,
        center.spec_largest() <= 0x2000_0000_0000_0000,
    ensures
        spec_sphere_hit(center, radius, material, ray, t_min, t_max) matches Some(rec) && {
            &&& rec.front_face
            &&& rec.material == material
            &&& rec.p == ray.spec_at(rec.t)
            &&& radius.raw - 1 <= rec.p.spec_sub(center).spec_largest() <= radius.raw
            &&& rec.normal.within_unit()
            &&& rec.normal.spec_add(ray.dir).spec_largest() <= 2
            &&& ray.dir.spec_dot(rec.normal).raw < 0
        },
{
    lemma_sphere_round_trip_along_axis(center, radius, material, ray, d, t_min, t_max);
    let rec = spec_sphere_hit(center, radius, material, ray, t_min, t_max)->0;
    let t = rec.t;
    assert(rec == sphere_record(center, radius, material, ray, t));
    lemma_axis_record(ray.dir.x, ray.orig.x, center.x, d, t, radius);
    lemma_axis_record(ray.dir.y, ray.orig.y, center.y, d, t, radius);
    lemma_axis_record(ray.dir.z, ray.orig.z, center.z, d, t, radius);
}

/// Texture coordinates of the point `n` of the unit sphere: its longitude
/// and latitude, each scaled to the interval from zero to one.
pub open spec fn spec_sphere_uv(n: Point3) -> (Fixed, Fixed) {
    let theta = spec_acos(n.y.spec_neg());
    let phi = spec_atan2(n.z.spec_neg(), n.x).spec_add(Fixed { raw: PI_RAW });
    (phi.spec_div(Fixed { raw: TWO_PI_RAW }), theta.spec_div(Fixed { raw: PI_RAW }))
}

/// The record of `ray` meeting the sphere at parameter `root`.
pub open spec fn sphere_record(
    center: Point3,
    radius: Fixed,
    material: Rc<Material>,
    ray: Ray,
    root: Fixed,
) -> HitRecord {
    let p = ray.spec_at(root);
    let n = p.spec_sub(center).spec_div(radius);
    let uv = spec_sphere_uv(n);
    HitRecord::spec_new(ray, root, p, n, material, uv.0, uv.1)
}

/// The hit of `ray` on the sphere inside the window: at the nearer root
/// where that lies strictly inside the window, else at the farther root
/// where that does.  A root on an end of the window does not count.
pub open spec fn spec_sphere_hit(
    center: Point3,
    radius: Fixed,
    material: Rc<Material>,
    ray: Ray,
    t_min: Fixed,
    t_max: Fixed,
) -> Option<HitRecord> {
    match sphere_roots(center, radius, ray) {
        None => None,
        Some((near, far)) => if inside_window(near, t_min, t_max) {
            Some(sphere_record(center, radius, material, ray, near))
        } else if inside_window(far, t_min, t_max) {
            Some(sphere_record(center, radius, material, ray, far))
        } else {
            None
        },
    }
}

/// The box around a sphere.
pub open spec fn spec_sphere_box(center: Point3, radius: Fixed) -> AABB {
    let r = Vec3 { x: radius, y: radius, z: radius };
    AABB { min: center.spec_sub(r), max: center.spec_add(r) }
}

/// The nearer root never lies behind the farther one.
pub proof fn lemma_sphere_roots_ordered(center: Point3, radius: Fixed, ray: Ray)
    ensures
        sphere_roots(center, radius, ray) matches Some(roots) ==> roots.0.raw <= roots.1.raw,
{
    let oc = ray.orig.spec_sub(center);
    let a = ray.dir.spec_length_squared();
    let half_b = oc.spec_dot(ray.dir);
    let c = oc.spec_dot(oc).spec_sub(radius.spec_mul(radius));
    let discriminant = half_b.spec_mul(half_b).spec_sub(a.spec_mul(c));
    if discriminant.raw >= 0 {
        let sqrtd = discriminant.spec_sqrt();
        lemma_square_nonnegative(ray.dir.x);
        lemma_square_nonnegative(ray.dir.y);
        lemma_square_nonnegative(ray.dir.z);
        assert(a.raw >= 0);
        lemma_sqrt_nonnegative(discriminant);
        let lo = half_b.spec_neg().spec_sub(sqrtd);
        let hi = half_b.spec_neg().spec_add(sqrtd);
        assert(lo.raw <= hi.raw);
        lemma_div_monotone_nonnegative(lo, hi, a);
    }
}

pub fn sphere_uv(n: &Point3) -> (r: (Fixed, Fixed))
    ensures
        r == spec_sphere_uv(*n),
{
    let theta = acos(n.y.neg());
    let phi = atan2(n.z.neg(), n.x).add(Fixed::from_raw(PI_RAW));
    (phi.div(Fixed::from_raw(TWO_PI_RAW)), theta.div(Fixed::from_raw(PI_RAW)))
}

/// The hit of `ray` on the sphere with the given center, radius and
/// material, inside the window.
///
/// The numbers end at `2^31` and squares are taken on the way, so the result
/// is the one that the formulas describe only while the sphere is near
/// enough: [`lemma_sphere_in_range`] shows that nothing saturates within
/// 8192 units of the origin of the ray on every axis.  Beyond the range the
/// contract still holds, of the saturated values.
pub fn sphere_hit(
    center: &Point3,
    radius: Fixed,
    material: &Rc<Material>,
    ray: &Ray,
    t_min: Fixed,
    t_max: Fixed,
) -> (r: Option<HitRecord>)
    ensures
        r == spec_sphere_hit(*center, radius, *material, *ray, t_min, t_max),
{
    let oc = ray.origin().sub(*center);
    let a = ray.dir().length_squared();
    let half_b = oc.dot(ray.dir());
    let c = oc.dot(oc).sub(radius.mul(radius));
    let discriminant = half_b.mul(half_b).sub(a.mul(c));
    if discriminant.raw < 0 {
        return None;
    }
    let sqrtd = discriminant.sqrt();
    let mut root = half_b.neg().sub(sqrtd).div(a);
    if root.raw <= t_min.raw || root.raw >= t_max.raw {
        root = half_b.neg().add(sqrtd).div(a);
        if root.raw <= t_min.raw || root.raw >= t_max.raw {
            return None;
        }
    }
    let p = ray.at(root);
    let n = p.sub(*center).div(radius);
    let (u, v) = sphere_uv(&n);
    Some(HitRecord::new(ray, root, &p, &n, share(material), u, v))
}

pub fn sphere_box(center: &Point3, radius: Fixed) -> (r: AABB)
    ensures
        r == spec_sphere_box(*center, radius),
{
    let r = Vec3::new(radius, radius, radius);
    AABB::new(&center.sub(r), &center.add(r))
}

pub struct Sphere {
    pub center: Point3,
    pub radius: Fixed,
    pub material: Rc<Material>,
}

impl Sphere {
    pub fn new(center: &Point3, radius: Fixed, material: Rc<Material>) -> (r: Sphere)
        ensures
            r.center == *center,
            r.radius == radius,
            r.material == material,
    {
        Sphere { center: *center, radius, material }
    }

    pub open spec fn spec_uv(self, p: Point3) -> (Fixed, Fixed) {
        spec_sphere_uv(p)
    }

    /// The hit of `ray` on the sphere inside the window; see
    /// [`spec_sphere_hit`].
    #[verifier::opaque]
    pub open spec fn spec_hit(self, ray: Ray, t_min: Fixed, t_max: Fixed) -> Option<HitRecord> {
        spec_sphere_hit(self.center, self.radius, self.material, ray, t_min, t_max)
    }

    pub open spec fn spec_bounding_box(self) -> Option<AABB> {
        Some(spec_sphere_box(self.center, self.radius))
    }

    /// Texture coordinates of the point `p` of the unit sphere.
    pub fn uv(&self, p: &Point3) -> (r: (Fixed, Fixed))
        ensures
            r == self.spec_uv(*p),
    {
        sphere_uv(p)
    }

    pub fn hit(&self, ray: &Ray, t_min: Fixed, t_max: Fixed) -> (r: Option<HitRecord>)
        ensures
            r == self.spec_hit(*ray, t_min, t_max),
    {
        reveal(Sphere::spec_hit);
        sphere_hit(&self.center, self.radius, &self.material, ray, t_min, t_max)
    }

    pub fn bounding_box(&self) -> (r: Option<AABB>)
        ensures
            r == self.spec_bounding_box(),
    {
        Some(sphere_box(&self.center, self.radius))
    }
}

/// A sphere whose center moves from `center0` to `center1` in `duration`,
/// again and again.
pub struct AnimatedSphere {
    pub center0: Point3,
    pub center1: Point3,
    pub duration: Fixed,
    pub radius: Fixed,
    pub material: Rc<Material>,
}

impl AnimatedSphere {
    pub fn new(
        center0: &Point3,
        center1: &Point3,
        duration: Fixed,
        radius: Fixed,
        material: Rc<Material>,
    ) -> (r: AnimatedSphere)
        ensures
            r.center0 == *center0,
            r.center1 == *center1,
            r.duration == duration,
            r.radius == radius,
            r.material == material,
    {
        AnimatedSphere { center0: *center0, center1: *center1, duration, radius, material }
    }

    /// Where the center is at time `t`: the share `f` of the duration that
    /// has passed within the current period takes it from `center0` to
    /// `center1`.
    pub open spec fn spec_center(self, t: Fixed) -> Point3 {
        let f = t.spec_rem(self.duration).spec_div(self.duration);
        self.center0.spec_scale(Fixed { raw: ONE_RAW }.spec_sub(f)).spec_add(
            self.center1.spec_scale(f),
        )
    }

    pub open spec fn spec_uv(self, p: Point3) -> (Fixed, Fixed) {
        spec_sphere_uv(p)
    }

    /// The hit of `ray` on the sphere where it is at the time that the ray
    /// carries; see [`spec_sphere_hit`].
    #[verifier::opaque]
    pub open spec fn spec_hit(self, ray: Ray, t_min: Fixed, t_max: Fixed) -> Option<HitRecord> {
        spec_sphere_hit(self.spec_center(ray.time), self.radius, self.material, ray, t_min, t_max)
    }

    /// The box around the spheres at both ends of the motion.
    pub open spec fn spec_bounding_box(self) -> Option<AABB> {
        Some(
            spec_sphere_box(self.center0, self.radius).spec_merge(
                spec_sphere_box(self.center1, self.radius),
            ),
        )
    }

    pub fn center(&self, t: Fixed) -> (r: Point3)
        ensures
            r == self.spec_center(t),
    {
        let f = t.rem(self.duration).div(self.duration);
        self.center0.scale(Fixed::one().sub(f)).add(self.center1.scale(f))
    }

    /// Texture coordinates of the point `p` of the unit sphere.
    pub fn uv(&self, p: &Point3) -> (r: (Fixed, Fixed))
        ensures
            r == self.spec_uv(*p),
    {
        sphere_uv(p)
    }

    pub fn hit(&self, ray: &Ray, t_min: Fixed, t_max: Fixed) -> (r: Option<HitRecord>)
        ensures
            r == self.spec_hit(*ray, t_min, t_max),
    {
        reveal(AnimatedSphere::spec_hit);
        let cur_center = self.center(ray.t());
        sphere_hit(&cur_center, self.radius, &self.material, ray, t_min, t_max)
    }

    pub fn bounding_box(&self) -> (r: Option<AABB>)
        ensures
            r == self.spec_bounding_box(),
    {
        let mut aabb = sphere_box(&self.center0, self.radius);
        aabb.merge(&sphere_box(&self.center1, self.radius));
        Some(aabb)
    }
}

} // verus!
