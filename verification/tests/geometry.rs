use raytracer::aabox::AABox;
use raytracer::bbox::AABB;
use raytracer::bvh::sort_by_axis;
use raytracer::fixed::Fixed;
use raytracer::hittable::{HitRecord, Hittable, HittableList, BVH};
use raytracer::material::{Lambertian, Material};
use raytracer::random::RandomSource;
use raytracer::ray::Ray;
use raytracer::rect::{axis_unit, AARect, PADDING_RAW};
use raytracer::sphere::{sphere_uv, AnimatedSphere, Sphere};
use raytracer::texture::{SolidTexture, Texture};
use raytracer::vec3::{Point3, Vec3};
use std::rc::Rc;

fn fx(x: f64) -> Fixed {
    Fixed::from_raw((x * 4294967296.0).round() as i64)
}

fn fl(x: Fixed) -> f64 {
    x.to_raw() as f64 / 4294967296.0
}

fn v(x: f64, y: f64, z: f64) -> Vec3 {
    Vec3::new(fx(x), fx(y), fx(z))
}

fn near(a: Fixed, b: f64, tol: f64) -> bool {
    (fl(a) - b).abs() <= tol
}

fn ray(o: Vec3, d: Vec3) -> Ray {
    Ray::new(&o, &d, Fixed::zero())
}

fn gray(level: f64) -> Rc<Material> {
    let texture = Rc::new(Texture::Solid(SolidTexture::new(&v(level, level, level))));
    Rc::new(Material::Lambertian(Lambertian::new(texture)))
}

fn sphere(x: f64, y: f64, z: f64, r: f64, m: &Rc<Material>) -> Rc<Hittable> {
    Rc::new(Hittable::Sphere(Sphere::new(&v(x, y, z), fx(r), Rc::clone(m))))
}

fn same_hit(a: &Option<HitRecord>, b: &Option<HitRecord>) -> bool {
    match (a, b) {
        (None, None) => true,
        (Some(x), Some(y)) => {
            x.t == y.t
                && x.p == y.p
                && x.normal == y.normal
                && x.front_face == y.front_face
                && x.u == y.u
                && x.v == y.v
                && Rc::ptr_eq(&x.material, &y.material)
        }
        _ => false,
    }
}

fn boxed(min: Vec3, max: Vec3) -> AABB {
    AABB::new(&min, &max)
}

fn merged(a: AABB, b: AABB) -> AABB {
    let mut r = a;
    r.merge(&b);
    r
}

#[test]
fn ray_runs_along_its_direction() {
    let r = Ray::new(&v(1.0, 2.0, 3.0), &v(0.5, -1.0, 2.0), fx(0.25));
    assert_eq!(r.origin(), v(1.0, 2.0, 3.0));
    assert_eq!(r.dir(), v(0.5, -1.0, 2.0));
    assert_eq!(r.t(), fx(0.25));
    assert_eq!(r.at(fx(2.0)), v(2.0, 0.0, 7.0));
    assert_eq!(r.at(fx(0.0)), v(1.0, 2.0, 3.0));
    assert_eq!(r.at(fx(-1.0)), v(0.5, 3.0, 1.0));
}

#[test]
fn box_keeps_its_corners() {
    let b = boxed(v(-1.0, -2.0, -3.0), v(1.0, 2.0, 3.0));
    assert_eq!(b.min(), v(-1.0, -2.0, -3.0));
    assert_eq!(b.max(), v(1.0, 2.0, 3.0));
    assert!(b.valid());
    assert!(!boxed(v(1.0, 0.0, 0.0), v(0.0, 1.0, 1.0)).valid());
    assert!(!boxed(v(0.0, 1.0, 0.0), v(1.0, 0.0, 1.0)).valid());
    assert!(!boxed(v(0.0, 0.0, 1.0), v(1.0, 1.0, 0.0)).valid());
    assert!(boxed(v(1.0, 1.0, 1.0), v(1.0, 1.0, 1.0)).valid());
}

#[test]
fn empty_box_is_made_of_the_limits() {
    let e = AABB::default();
    let hi = Fixed::max_value();
    let lo = Fixed::min_value();
    assert_eq!(e.min(), Vec3::new(hi, hi, hi));
    assert_eq!(e.max(), Vec3::new(lo, lo, lo));
    assert!(!e.valid());
}

#[test]
fn merge_takes_the_outer_bounds() {
    let a = boxed(v(0.0, 0.0, 0.0), v(1.0, 1.0, 1.0));
    let b = boxed(v(-1.0, 0.5, 0.25), v(0.5, 3.0, 0.75));
    assert_eq!(merged(a, b), boxed(v(-1.0, 0.0, 0.0), v(1.0, 3.0, 1.0)));
}

#[test]
fn merge_is_commutative_and_associative() {
    let a = boxed(v(0.0, 0.0, 0.0), v(1.0, 1.0, 1.0));
    let b = boxed(v(-1.0, 0.5, 0.25), v(0.5, 3.0, 0.75));
    let c = boxed(v(2.0, -7.0, 0.5), v(9.0, -6.0, 0.6));
    assert_eq!(merged(a, b), merged(b, a));
    assert_eq!(merged(merged(a, b), c), merged(a, merged(b, c)));
    assert_eq!(merged(a, a), a);
}

#[test]
fn empty_box_is_the_identity_of_merge() {
    let a = boxed(v(-4.0, 0.5, 0.25), v(0.5, 3.0, 0.75));
    assert_eq!(merged(AABB::default(), a), a);
    assert_eq!(merged(a, AABB::default()), a);
    let limits = boxed(
        Vec3::new(Fixed::min_value(), Fixed::max_value(), fx(0.0)),
        Vec3::new(Fixed::max_value(), Fixed::min_value(), fx(0.0)),
    );
    assert_eq!(merged(AABB::default(), limits), limits);
}

#[test]
fn slab_test_finds_rays_through_the_box() {
    let b = boxed(v(-1.0, -1.0, -1.0), v(1.0, 1.0, 1.0));
    assert!(b.hit(&ray(v(-5.0, 0.0, 0.0), v(1.0, 0.0, 0.0)), fx(0.0), fx(100.0)));
    assert!(b.hit(&ray(v(5.0, 0.5, -0.5), v(-1.0, 0.0, 0.0)), fx(0.0), fx(100.0)));
    assert!(b.hit(&ray(v(-5.0, -5.0, -5.0), v(1.0, 1.0, 1.0)), fx(0.0), fx(100.0)));
    assert!(b.hit(&ray(v(0.0, 0.0, 0.0), v(0.0, 0.0, 1.0)), fx(0.0), fx(100.0)));
    assert!(!b.hit(&ray(v(-5.0, 2.0, 0.0), v(1.0, 0.0, 0.0)), fx(0.0), fx(100.0)));
    assert!(!b.hit(&ray(v(-5.0, 0.0, 0.0), v(-1.0, 0.0, 0.0)), fx(0.0), fx(100.0)));
    assert!(!b.hit(&ray(v(-5.0, 0.0, 0.0), v(1.0, 1.0, 0.0)), fx(0.0), fx(100.0)));
}

#[test]
fn slab_test_respects_the_window() {
    let b = boxed(v(-1.0, -1.0, -1.0), v(1.0, 1.0, 1.0));
    let r = ray(v(-5.0, 0.0, 0.0), v(1.0, 0.0, 0.0));
    assert!(b.hit(&r, fx(0.0), fx(4.5)));
    assert!(!b.hit(&r, fx(0.0), fx(4.0)));
    assert!(!b.hit(&r, fx(0.0), fx(3.0)));
    assert!(b.hit(&r, fx(5.5), fx(100.0)));
    assert!(!b.hit(&r, fx(6.0), fx(100.0)));
    assert!(!b.hit(&r, fx(10.0), fx(1.0)));
    assert!(b.hit(&r, Fixed::min_value(), Fixed::max_value()));
}

#[test]
fn slab_test_handles_rays_along_an_axis() {
    let b = boxed(v(-1.0, -1.0, -1.0), v(1.0, 1.0, 1.0));
    assert!(b.hit(&ray(v(-5.0, 1.0, -1.0), v(1.0, 0.0, 0.0)), fx(0.0), fx(100.0)));
    assert!(b.hit(&ray(v(-5.0, 0.999, 0.0), v(1.0, 0.0, 0.0)), fx(0.0), fx(100.0)));
    assert!(!b.hit(&ray(v(-5.0, 1.001, 0.0), v(1.0, 0.0, 0.0)), fx(0.0), fx(100.0)));
    assert!(!b.hit(&ray(v(-5.0, 0.0, -1.001), v(1.0, 0.0, 0.0)), fx(0.0), fx(100.0)));
    assert!(b.hit(&ray(v(0.0, 0.0, 0.0), v(0.0, 0.0, 0.0)), fx(0.0), fx(100.0)));
    assert!(!b.hit(&ray(v(2.0, 0.0, 0.0), v(0.0, 0.0, 0.0)), fx(0.0), fx(100.0)));
}

#[test]
fn slab_test_does_not_depend_on_the_order_of_the_axes() {
    let mut rng = RandomSource::from_seed(11);
    let lo = fx(-4.0);
    let hi = fx(4.0);
    let mut hits = 0;
    let mut n = 0;
    while n < 500 {
        let a = Vec3::random_in(lo, hi, &mut rng);
        let b = Vec3::random_in(lo, hi, &mut rng);
        let min = Vec3::new(a.x.min(b.x), a.y.min(b.y), a.z.min(b.z));
        let max = Vec3::new(a.x.max(b.x), a.y.max(b.y), a.z.max(b.z));
        let o = Vec3::random_in(lo, hi, &mut rng);
        let d = Vec3::random_in(fx(-1.0), fx(1.0), &mut rng);
        let straight = boxed(min, max).hit(&ray(o, d), fx(0.0), fx(50.0));
        let turn = |p: Vec3| Vec3::new(p.y, p.z, p.x);
        let swap = |p: Vec3| Vec3::new(p.z, p.y, p.x);
        let turned = boxed(turn(min), turn(max)).hit(&ray(turn(o), turn(d)), fx(0.0), fx(50.0));
        let swapped = boxed(swap(min), swap(max)).hit(&ray(swap(o), swap(d)), fx(0.0), fx(50.0));
        assert_eq!(straight, turned);
        assert_eq!(straight, swapped);
        if straight {
            hits += 1;
        }
        n += 1;
    }
    assert!(hits > 20 && hits < 480);
}

#[test]
fn hit_record_turns_the_normal_against_the_ray() {
    let m = gray(0.5);
    let r = ray(v(0.0, 0.0, 0.0), v(0.0, 0.0, -1.0));
    let front = HitRecord::new(&r, fx(1.0), &v(0.0, 0.0, -1.0), &v(0.0, 0.0, 1.0), Rc::clone(&m), fx(0.1), fx(0.2));
    assert!(front.front_face);
    assert_eq!(front.normal, v(0.0, 0.0, 1.0));
    assert_eq!(front.t, fx(1.0));
    assert_eq!(front.p, v(0.0, 0.0, -1.0));
    assert_eq!(front.u, fx(0.1));
    assert_eq!(front.v, fx(0.2));
    assert!(Rc::ptr_eq(&front.material, &m));
    let back = HitRecord::new(&r, fx(1.0), &v(0.0, 0.0, -1.0), &v(0.0, 0.0, -1.0), Rc::clone(&m), fx(0.0), fx(0.0));
    assert!(!back.front_face);
    assert_eq!(back.normal, v(0.0, 0.0, 1.0));
    let grazing = HitRecord::new(&r, fx(1.0), &v(0.0, 0.0, -1.0), &v(1.0, 0.0, 0.0), Rc::clone(&m), fx(0.0), fx(0.0));
    assert!(!grazing.front_face);
    assert_eq!(grazing.normal, v(-1.0, 0.0, 0.0));
}

#[test]
fn sphere_is_hit_at_distance_minus_radius() {
    let m = gray(0.5);
    let centers = [(0.0, 0.0, -1.0), (3.0, -2.0, 5.0), (-10.0, 4.0, 0.5)];
    let directions = [(0.0, 0.0, 1.0), (1.0, 0.0, 0.0), (0.6, 0.0, 0.8), (0.0, -0.6, 0.8), (0.48, 0.6, -0.64)];
    for c in centers {
        for d in directions {
            for (radius, dist) in [(0.5, 1.0), (0.5, 7.0), (2.0, 3.5), (10.0, 40.0)] {
                let s = Sphere::new(&v(c.0, c.1, c.2), fx(radius), Rc::clone(&m));
                let from = v(c.0 - d.0 * dist, c.1 - d.1 * dist, c.2 - d.2 * dist);
                let r = ray(from, v(d.0, d.1, d.2));
                let h = s.hit(&r, fx(0.0001), Fixed::max_value()).expect("the ray is aimed at the center");
                assert!(near(h.t, dist - radius, 1e-6), "t {} for {} {}", fl(h.t), dist, radius);
                assert!(near(h.normal.length(), 1.0, 1e-6));
                let out = h.p.sub(v(c.0, c.1, c.2));
                assert!(near(h.normal.dot(out), radius, 1e-6));
                assert!(h.front_face);
                assert!(Rc::ptr_eq(&h.material, &m));
            }
        }
    }
}

#[test]
fn sphere_prefers_the_nearer_root_inside_the_window() {
    let m = gray(0.5);
    let s = Sphere::new(&v(0.0, 0.0, 0.0), fx(1.0), Rc::clone(&m));
    let r = ray(v(0.0, 0.0, -5.0), v(0.0, 0.0, 1.0));
    assert_eq!(s.hit(&r, fx(0.0), fx(100.0)).unwrap().t, fx(4.0));
    assert_eq!(s.hit(&r, fx(3.999), fx(4.001)).unwrap().t, fx(4.0));
    let far = s.hit(&r, fx(4.5), fx(100.0)).unwrap();
    assert_eq!(far.t, fx(6.0));
    assert!(!far.front_face);
    assert_eq!(far.normal, v(0.0, 0.0, -1.0));
    assert_eq!(far.p, v(0.0, 0.0, 1.0));
    assert_eq!(s.hit(&r, fx(4.5), fx(6.001)).unwrap().t, fx(6.0));
    assert_eq!(s.hit(&r, fx(4.0), fx(100.0)).unwrap().t, fx(6.0));
    assert!(s.hit(&r, fx(4.5), fx(5.5)).is_none());
    assert!(s.hit(&r, fx(6.5), fx(100.0)).is_none());
    assert!(s.hit(&r, fx(0.0), fx(3.5)).is_none());
    let inside = ray(v(0.0, 0.0, 0.0), v(0.0, 1.0, 0.0));
    let h = s.hit(&inside, fx(0.0001), Fixed::max_value()).unwrap();
    assert_eq!(h.t, fx(1.0));
    assert!(!h.front_face);
}

#[test]
fn sphere_is_missed_by_rays_that_pass_it() {
    let m = gray(0.5);
    let s = Sphere::new(&v(0.0, 0.0, 0.0), fx(1.0), Rc::clone(&m));
    assert!(s.hit(&ray(v(0.0, 2.0, -5.0), v(0.0, 0.0, 1.0)), fx(0.0), Fixed::max_value()).is_none());
    assert!(s.hit(&ray(v(0.0, 0.0, -5.0), v(0.0, 0.0, -1.0)), fx(0.0), Fixed::max_value()).is_none());
    assert!(s.hit(&ray(v(0.0, 0.0, -5.0), v(0.0, 1.0, 0.0)), fx(0.0), Fixed::max_value()).is_none());
    let tangent = s.hit(&ray(v(-5.0, 1.0, 0.0), v(1.0, 0.0, 0.0)), fx(0.0), Fixed::max_value()).unwrap();
    assert_eq!(tangent.t, fx(5.0));
    assert_eq!(tangent.p, v(0.0, 1.0, 0.0));
}

#[test]
fn sphere_box_spans_the_radius() {
    let m = gray(0.5);
    let s = Sphere::new(&v(1.0, -2.0, 3.0), fx(0.5), Rc::clone(&m));
    assert_eq!(s.bounding_box(), Some(boxed(v(0.5, -2.5, 2.5), v(1.5, -1.5, 3.5))));
    assert_eq!(s.center, v(1.0, -2.0, 3.0));
    assert_eq!(s.radius, fx(0.5));
}

#[test]
fn sphere_coordinates_are_longitude_and_latitude() {
    let cases = [
        ((1.0, 0.0, 0.0), (0.5, 0.5)),
        ((0.0, 1.0, 0.0), (0.5, 1.0)),
        ((0.0, 0.0, 1.0), (0.25, 0.5)),
        ((-1.0, 0.0, 0.0), (0.0, 0.5)),
        ((0.0, 0.0, -1.0), (0.75, 0.5)),
        ((0.0, -1.0, 0.0), (0.5, 0.0)),
    ];
    for (n, (u, w)) in cases {
        let got = sphere_uv(&v(n.0, n.1, n.2));
        let du = (fl(got.0) - u).abs();
        assert!(du < 1e-4 || (du - 1.0).abs() < 1e-4, "u {} for {:?}", fl(got.0), n);
        assert!(near(got.1, w, 1e-4), "v {} for {:?}", fl(got.1), n);
    }
    let m = gray(0.5);
    let s = Sphere::new(&v(0.0, 0.0, 0.0), fx(1.0), Rc::clone(&m));
    assert_eq!(s.uv(&v(0.0, 0.0, 1.0)), sphere_uv(&v(0.0, 0.0, 1.0)));
    let h = s.hit(&ray(v(0.0, 0.0, 5.0), v(0.0, 0.0, -1.0)), fx(0.0), Fixed::max_value()).unwrap();
    assert_eq!((h.u, h.v), sphere_uv(&v(0.0, 0.0, 1.0)));
}

#[test]
fn moving_sphere_is_where_its_time_puts_it() {
    let m = gray(0.5);
    let s = AnimatedSphere::new(&v(0.0, 0.0, 0.0), &v(0.0, 4.0, 0.0), fx(2.0), fx(0.5), Rc::clone(&m));
    assert_eq!(s.center(fx(0.0)), v(0.0, 0.0, 0.0));
    assert_eq!(s.center(fx(1.0)), v(0.0, 2.0, 0.0));
    assert_eq!(s.center(fx(0.5)), v(0.0, 1.0, 0.0));
    assert_eq!(s.center(fx(2.0)), v(0.0, 0.0, 0.0));
    assert_eq!(s.center(fx(3.0)), v(0.0, 2.0, 0.0));
    let still = AnimatedSphere::new(&v(1.0, 1.0, 1.0), &v(0.0, 4.0, 0.0), fx(0.0), fx(0.5), Rc::clone(&m));
    assert_eq!(still.center(fx(0.7)), v(1.0, 1.0, 1.0));
    let early = Ray::new(&v(0.0, 0.0, -5.0), &v(0.0, 0.0, 1.0), fx(0.0));
    let late = Ray::new(&v(0.0, 0.0, -5.0), &v(0.0, 0.0, 1.0), fx(1.0));
    assert_eq!(s.hit(&early, fx(0.0), Fixed::max_value()).unwrap().t, fx(4.5));
    assert!(s.hit(&late, fx(0.0), Fixed::max_value()).is_none());
    let raised = Ray::new(&v(0.0, 2.0, -5.0), &v(0.0, 0.0, 1.0), fx(1.0));
    assert_eq!(s.hit(&raised, fx(0.0), Fixed::max_value()).unwrap().t, fx(4.5));
    assert_eq!(s.bounding_box(), Some(boxed(v(-0.5, -0.5, -0.5), v(0.5, 4.5, 0.5))));
    assert_eq!(s.uv(&v(0.0, 1.0, 0.0)), sphere_uv(&v(0.0, 1.0, 0.0)));
}

#[test]
fn rectangles_are_hit_inside_their_bounds() {
    let m = gray(0.5);
    let xy = AARect::new_xy(fx(0.0), fx(2.0), fx(0.0), fx(4.0), fx(-3.0), Rc::clone(&m));
    let h = xy.hit(&ray(v(0.5, 1.0, 0.0), v(0.0, 0.0, -1.0)), fx(0.0), Fixed::max_value()).unwrap();
    assert_eq!(h.t, fx(3.0));
    assert_eq!(h.p, v(0.5, 1.0, -3.0));
    assert_eq!(h.normal, v(0.0, 0.0, 1.0));
    assert!(h.front_face);
    assert_eq!(h.u, fx(0.25));
    assert_eq!(h.v, fx(0.25));
    assert!(Rc::ptr_eq(&h.material, &m));
    let behind = xy.hit(&ray(v(0.5, 1.0, -5.0), v(0.0, 0.0, 1.0)), fx(0.0), Fixed::max_value()).unwrap();
    assert!(!behind.front_face);
    assert_eq!(behind.normal, v(0.0, 0.0, -1.0));
    assert!(xy.hit(&ray(v(2.5, 1.0, 0.0), v(0.0, 0.0, -1.0)), fx(0.0), Fixed::max_value()).is_none());
    assert!(xy.hit(&ray(v(0.5, -0.5, 0.0), v(0.0, 0.0, -1.0)), fx(0.0), Fixed::max_value()).is_none());
    assert!(xy.hit(&ray(v(0.5, 1.0, 0.0), v(0.0, 0.0, 1.0)), fx(0.0), Fixed::max_value()).is_none());
    assert!(xy.hit(&ray(v(0.5, 1.0, 0.0), v(0.0, 0.0, -1.0)), fx(0.0), fx(2.5)).is_none());
    assert!(xy.hit(&ray(v(0.5, 1.0, 0.0), v(0.0, 0.0, -1.0)), fx(3.5), fx(9.0)).is_none());
    assert!(xy.hit(&ray(v(2.0, 4.0, 0.0), v(0.0, 0.0, -1.0)), fx(0.0), Fixed::max_value()).is_some());

    let xz = AARect::new_xz(fx(-1.0), fx(1.0), fx(-1.0), fx(1.0), fx(2.0), Rc::clone(&m));
    let h = xz.hit(&ray(v(0.5, 0.0, -0.5), v(0.0, 1.0, 0.0)), fx(0.0), Fixed::max_value()).unwrap();
    assert_eq!(h.t, fx(2.0));
    assert_eq!(h.normal, v(0.0, -1.0, 0.0));
    assert_eq!(h.u, fx(0.75));
    assert_eq!(h.v, fx(0.25));

    let yz = AARect::new_yz(fx(-1.0), fx(1.0), fx(-1.0), fx(1.0), fx(2.0), Rc::clone(&m));
    let h = yz.hit(&ray(v(0.0, 0.5, -0.5), v(2.0, 0.0, 0.0)), fx(0.0), Fixed::max_value()).unwrap();
    assert_eq!(h.t, fx(1.0));
    assert_eq!(h.normal, v(-1.0, 0.0, 0.0));
    assert_eq!(h.u, fx(0.75));
    assert_eq!(h.v, fx(0.25));
    assert!(yz.hit(&ray(v(0.0, 0.5, -0.5), v(0.0, 1.0, 0.0)), fx(0.0), fx(1000.0)).is_none());
}

#[test]
fn rectangle_boxes_are_padded_along_the_fixed_axis() {
    let m = gray(0.5);
    let pad = Fixed::from_raw(PADDING_RAW);
    assert_eq!(PADDING_RAW, 429496);
    let xy = AARect::new_xy(fx(0.0), fx(2.0), fx(1.0), fx(4.0), fx(-3.0), Rc::clone(&m));
    assert_eq!(
        xy.bounding_box(),
        Some(AABB::new(
            &Vec3::new(fx(0.0), fx(1.0), fx(-3.0).sub(pad)),
            &Vec3::new(fx(2.0), fx(4.0), fx(-3.0).add(pad)),
        ))
    );
    let xz = AARect::new_xz(fx(0.0), fx(2.0), fx(1.0), fx(4.0), fx(-3.0), Rc::clone(&m));
    assert_eq!(
        xz.bounding_box(),
        Some(AABB::new(
            &Vec3::new(fx(0.0), fx(-3.0).sub(pad), fx(1.0)),
            &Vec3::new(fx(2.0), fx(-3.0).add(pad), fx(4.0)),
        ))
    );
    let yz = AARect::new_yz(fx(0.0), fx(2.0), fx(1.0), fx(4.0), fx(-3.0), Rc::clone(&m));
    assert_eq!(
        yz.bounding_box(),
        Some(AABB::new(
            &Vec3::new(fx(-3.0).sub(pad), fx(0.0), fx(1.0)),
            &Vec3::new(fx(-3.0).add(pad), fx(2.0), fx(4.0)),
        ))
    );
    assert!(xy.bounding_box().unwrap().valid());
    assert_eq!(axis_unit(0), v(1.0, 0.0, 0.0));
    assert_eq!(axis_unit(1), v(0.0, 1.0, 0.0));
    assert_eq!(axis_unit(2), v(0.0, 0.0, 1.0));
    let f = yz.frame();
    assert_eq!((f.axis0, f.axis1, f.fixed_axis), (1, 2, 0));
    assert_eq!((f.min0, f.max0, f.min1, f.max1, f.k), (fx(0.0), fx(2.0), fx(1.0), fx(4.0), fx(-3.0)));
}

#[test]
fn box_is_made_of_six_faces() {
    let m = gray(0.5);
    let before = Rc::strong_count(&m);
    let b = AABox::new(&v(0.0, 0.0, 0.0), &v(1.0, 2.0, 3.0), Rc::clone(&m));
    assert_eq!(b.sides.objects.len(), 6);
    assert_eq!(Rc::strong_count(&m), before + 6);
    assert_eq!(b.bounding_box(), Some(boxed(v(0.0, 0.0, 0.0), v(1.0, 2.0, 3.0))));
    let planes: Vec<(usize, Fixed)> = b
        .sides
        .objects
        .iter()
        .map(|o| match &**o {
            Hittable::AARect(r) => {
                let f = r.frame();
                (f.fixed_axis, f.k)
            }
            _ => panic!("a face is a rectangle"),
        })
        .collect();
    assert_eq!(
        planes,
        vec![(2, fx(3.0)), (2, fx(0.0)), (1, fx(2.0)), (1, fx(0.0)), (0, fx(1.0)), (0, fx(0.0))]
    );
    let mut rng = RandomSource::from_seed(1);
    let h = b.hit(&ray(v(0.5, 1.0, 10.0), v(0.0, 0.0, -1.0)), fx(0.0), Fixed::max_value(), &mut rng).unwrap();
    assert_eq!(h.t, fx(7.0));
    assert_eq!(h.normal, v(0.0, 0.0, 1.0));
    let h = b.hit(&ray(v(0.5, 1.0, 1.0), v(0.0, 0.0, -1.0)), fx(0.0001), Fixed::max_value(), &mut rng).unwrap();
    assert_eq!(h.t, fx(1.0));
    let h = b.hit(&ray(v(-4.0, 1.0, 1.0), v(1.0, 0.0, 0.0)), fx(0.0), Fixed::max_value(), &mut rng).unwrap();
    assert_eq!(h.t, fx(4.0));
    assert!(b.hit(&ray(v(-4.0, 5.0, 1.0), v(1.0, 0.0, 0.0)), fx(0.0), Fixed::max_value(), &mut rng).is_none());
}

#[test]
fn list_returns_the_nearest_hit() {
    let near_m = gray(0.1);
    let mid_m = gray(0.2);
    let far_m = gray(0.3);
    let mut rng = RandomSource::from_seed(1);
    let mut list = HittableList::new(sphere(0.0, 0.0, -10.0, 1.0, &far_m));
    list.add(sphere(0.0, 0.0, -3.0, 1.0, &near_m));
    list.add(sphere(0.0, 0.0, -6.0, 1.0, &mid_m));
    assert_eq!(list.objects.len(), 3);
    let r = ray(v(0.0, 0.0, 0.0), v(0.0, 0.0, -1.0));
    let h = list.hit(&r, fx(0.0001), Fixed::max_value(), &mut rng).unwrap();
    assert_eq!(h.t, fx(2.0));
    assert!(Rc::ptr_eq(&h.material, &near_m));
    let h = list.hit(&r, fx(4.5), Fixed::max_value(), &mut rng).unwrap();
    assert_eq!(h.t, fx(5.0));
    assert!(Rc::ptr_eq(&h.material, &mid_m));
    let h = list.hit(&r, fx(7.5), Fixed::max_value(), &mut rng).unwrap();
    assert_eq!(h.t, fx(9.0));
    assert!(Rc::ptr_eq(&h.material, &far_m));
    assert!(list.hit(&r, fx(11.5), Fixed::max_value(), &mut rng).is_none());
    assert!(list.hit(&ray(v(0.0, 5.0, 0.0), v(0.0, 0.0, -1.0)), fx(0.0), Fixed::max_value(), &mut rng).is_none());
    list.clear();
    assert_eq!(list.objects.len(), 0);
    assert!(list.hit(&r, fx(0.0001), Fixed::max_value(), &mut rng).is_none());
}

#[test]
fn sphere_takes_no_root_on_an_end_of_the_window() {
    let m = gray(0.5);
    let s = Sphere::new(&v(0.0, 0.0, -1.0), fx(0.5), Rc::clone(&m));
    let r = ray(v(0.0, 0.0, 0.0), v(0.0, 0.0, -1.0));
    assert!(s.hit(&r, fx(0.5), fx(1.0)).is_none());
    assert!(s.hit(&r, fx(0.0), fx(0.5)).is_none());
    assert!(s.hit(&r, fx(0.5), fx(1.5)).is_none());
    assert!(s.hit(&r, fx(0.5), fx(0.5)).is_none());
    assert!(s.hit(&r, fx(1.5), fx(9.0)).is_none());
    assert_eq!(s.hit(&r, fx(0.5), fx(1.500001)).unwrap().t, fx(1.5));
    assert_eq!(s.hit(&r, fx(0.499999), fx(1.0)).unwrap().t, fx(0.5));
    assert_eq!(s.hit(&r, Fixed::from_raw((1i64 << 31) - 1), Fixed::from_raw((1i64 << 31) + 1)).unwrap().t, fx(0.5));
    let moving = AnimatedSphere::new(&v(0.0, 0.0, -1.0), &v(0.0, 4.0, -1.0), fx(2.0), fx(0.5), Rc::clone(&m));
    assert!(moving.hit(&r, fx(0.5), fx(1.0)).is_none());
    assert!(moving.hit(&r, fx(0.0), fx(0.5)).is_none());
    assert_eq!(moving.hit(&r, fx(0.0), fx(1.0)).unwrap().t, fx(0.5));
}

#[test]
fn list_lets_the_first_of_two_spheres_win_a_tie() {
    let first = gray(0.1);
    let second = gray(0.2);
    let mut rng = RandomSource::from_seed(1);
    let mut list = HittableList::default();
    list.add(sphere(0.0, 0.0, -3.0, 1.0, &first));
    list.add(sphere(0.0, 0.0, -3.0, 1.0, &second));
    let h = list.hit(&ray(v(0.0, 0.0, 0.0), v(0.0, 0.0, -1.0)), fx(0.0), Fixed::max_value(), &mut rng).unwrap();
    assert!(Rc::ptr_eq(&h.material, &first));
}

#[test]
fn list_lets_the_later_of_two_rectangles_win_a_tie() {
    let first = gray(0.1);
    let second = gray(0.2);
    let mut rng = RandomSource::from_seed(1);
    let wall = |m: &Rc<Material>| -> Rc<Hittable> {
        Rc::new(Hittable::AARect(AARect::new_xy(fx(-1.0), fx(1.0), fx(-1.0), fx(1.0), fx(-2.0), Rc::clone(m))))
    };
    let mut list = HittableList::default();
    list.add(wall(&first));
    list.add(wall(&second));
    list.add(sphere(0.0, 0.0, -3.0, 1.0, &first));
    let r = ray(v(0.0, 0.0, 0.0), v(0.0, 0.0, -1.0));
    let h = list.hit(&r, fx(0.0), Fixed::max_value(), &mut rng).unwrap();
    assert_eq!(h.t, fx(2.0));
    assert!(Rc::ptr_eq(&h.material, &second));
    let h = list.hit(&r, fx(2.0), fx(2.0), &mut rng).unwrap();
    assert!(Rc::ptr_eq(&h.material, &second));
}

#[test]
fn list_box_holds_every_object() {
    let m = gray(0.5);
    let mut list = HittableList::default();
    assert_eq!(list.bounding_box(), Some(AABB::default()));
    list.add(sphere(0.0, 0.0, -3.0, 1.0, &m));
    assert_eq!(list.bounding_box(), Some(boxed(v(-1.0, -1.0, -4.0), v(1.0, 1.0, -2.0))));
    list.add(sphere(5.0, 1.0, 0.0, 2.0, &m));
    assert_eq!(list.bounding_box(), Some(boxed(v(-1.0, -1.0, -4.0), v(7.0, 3.0, 2.0))));
    let outer = Hittable::HittableList(list);
    assert_eq!(outer.bounding_box(), Some(boxed(v(-1.0, -1.0, -4.0), v(7.0, 3.0, 2.0))));
}

#[test]
fn sorting_orders_objects_by_the_lower_corner() {
    let m = gray(0.5);
    let objects = vec![
        sphere(3.0, 0.0, -1.0, 1.0, &m),
        sphere(-2.0, 5.0, 4.0, 0.5, &m),
        sphere(0.0, -3.0, 2.0, 2.0, &m),
        sphere(1.0, 1.0, 4.0, 0.5, &m),
    ];
    let key = |o: &Rc<Hittable>, axis: usize| o.bounding_box().unwrap().min().axis(axis);
    for axis in 0..3 {
        let sorted = sort_by_axis(&objects, axis);
        assert_eq!(sorted.len(), 4);
        for k in 1..4 {
            assert!(key(&sorted[k - 1], axis).le(key(&sorted[k], axis)));
        }
        for o in objects.iter() {
            assert_eq!(sorted.iter().filter(|s| Rc::ptr_eq(s, o)).count(), 1);
        }
    }
    let by_x = sort_by_axis(&objects, 0);
    assert!(Rc::ptr_eq(&by_x[0], &objects[1]));
    assert!(Rc::ptr_eq(&by_x[1], &objects[2]));
    assert!(Rc::ptr_eq(&by_x[2], &objects[3]));
    assert!(Rc::ptr_eq(&by_x[3], &objects[0]));
    let by_z = sort_by_axis(&objects, 2);
    assert!(Rc::ptr_eq(&by_z[0], &objects[0]));
    assert!(Rc::ptr_eq(&by_z[1], &objects[2]));
    assert!(Rc::ptr_eq(&by_z[2], &objects[1]));
    assert!(Rc::ptr_eq(&by_z[3], &objects[3]));
}

fn leaves_of(node: &BVH, n: usize, out: &mut Vec<Rc<Hittable>>) {
    if n <= 2 {
        out.push(Rc::clone(&node.left));
        out.push(Rc::clone(&node.right));
    } else {
        match (&*node.left, &*node.right) {
            (Hittable::BVH(l), Hittable::BVH(r)) => {
                leaves_of(l, n / 2, out);
                leaves_of(r, n - n / 2, out);
            }
            _ => panic!("an inner node has two nodes as children"),
        }
    }
}

fn check_boxes(node: &BVH, n: usize) {
    let lb = node.left.bounding_box().unwrap();
    let rb = node.right.bounding_box().unwrap();
    assert_eq!(node.bounding_box().unwrap(), merged(lb, rb));
    if n == 1 {
        assert!(Rc::ptr_eq(&node.left, &node.right));
    }
    if n > 2 {
        match (&*node.left, &*node.right) {
            (Hittable::BVH(l), Hittable::BVH(r)) => {
                check_boxes(l, n / 2);
                check_boxes(r, n - n / 2);
            }
            _ => panic!("an inner node has two nodes as children"),
        }
    }
}

fn scattered_spheres(count: usize, rng: &mut RandomSource) -> Vec<Rc<Hittable>> {
    let mut out: Vec<Rc<Hittable>> = Vec::new();
    let mut k = 0;
    while k < count {
        let gx = (k % 4) as f64 * 3.0 - 4.5;
        let gy = ((k / 4) % 4) as f64 * 3.0 - 4.5;
        let gz = (k / 16) as f64 * 3.0 - 12.0;
        let jitter = Vec3::random_in(fx(-0.4), fx(0.4), rng);
        let radius = rng.between(fx(0.3), fx(1.0));
        let c = v(gx, gy, gz).add(jitter);
        let m = gray(0.5);
        out.push(Rc::new(Hittable::Sphere(Sphere::new(&c, radius, m))));
        k += 1;
    }
    out
}

#[test]
fn hierarchy_holds_every_object_at_a_leaf() {
    for count in [2usize, 3, 4, 5, 7, 8, 13, 32] {
        let mut rng = RandomSource::from_seed(count as u64);
        let objects = scattered_spheres(count, &mut rng);
        let tree = BVH::new(objects.clone(), &mut rng);
        let mut leaves = Vec::new();
        leaves_of(&tree, count, &mut leaves);
        for o in objects.iter() {
            assert!(leaves.iter().any(|l| Rc::ptr_eq(l, o)), "{} objects", count);
        }
        for l in leaves.iter() {
            assert!(objects.iter().any(|o| Rc::ptr_eq(l, o)));
        }
        check_boxes(&tree, count);
        let all = HittableList { objects: objects.clone() }.bounding_box().unwrap();
        assert_eq!(tree.bounding_box(), Some(all));
        assert_eq!(Hittable::BVH(tree).bounding_box(), Some(all));
    }
}

#[test]
fn hierarchy_of_three_repeats_the_single_object_of_its_left_half() {
    let mut rng = RandomSource::from_seed(5);
    let objects = scattered_spheres(3, &mut rng);
    let tree = BVH::new(objects.clone(), &mut rng);
    match (&*tree.left, &*tree.right) {
        (Hittable::BVH(l), Hittable::BVH(r)) => {
            assert!(Rc::ptr_eq(&l.left, &l.right));
            assert!(!Rc::ptr_eq(&r.left, &r.right));
            assert_eq!(l.bounding_box(), l.left.bounding_box());
        }
        _ => panic!("an inner node has two nodes as children"),
    }
}

#[test]
fn hierarchy_splits_its_leaves_along_an_axis() {
    let mut rng = RandomSource::from_seed(77);
    let objects = scattered_spheres(16, &mut rng);
    let tree = BVH::new(objects, &mut rng);
    let (mut left, mut right) = (Vec::new(), Vec::new());
    match (&*tree.left, &*tree.right) {
        (Hittable::BVH(l), Hittable::BVH(r)) => {
            leaves_of(l, 8, &mut left);
            leaves_of(r, 8, &mut right);
        }
        _ => panic!("an inner node has two nodes as children"),
    }
    let key = |o: &Rc<Hittable>, axis: usize| o.bounding_box().unwrap().min().axis(axis);
    let split = (0..3).any(|axis| {
        left.iter().all(|l| right.iter().all(|r| key(l, axis).le(key(r, axis))))
    });
    assert!(split);
}

#[test]
fn hierarchy_answers_as_the_list() {
    for count in [2usize, 3, 5, 16, 40] {
        let mut rng = RandomSource::from_seed(1000 + count as u64);
        let objects = scattered_spheres(count, &mut rng);
        let list = HittableList { objects: objects.clone() };
        let tree = BVH::new(objects.clone(), &mut rng);
        let mut found = 0;
        let mut n = 0;
        while n < 400 {
            let o = Vec3::random_in(fx(-8.0), fx(8.0), &mut rng);
            let aimed = objects[n % count].bounding_box().unwrap();
            let center = aimed.min().add(aimed.max()).scale(fx(0.5));
            let target = center.add(Vec3::random_in(fx(-1.0), fx(1.0), &mut rng));
            let d = target.sub(o).unit_vector();
            let r = ray(o, d);
            let windows = [
                (fx(0.0001), Fixed::max_value()),
                (fx(0.0), fx(5.0)),
                (fx(3.0), fx(9.0)),
                (Fixed::min_value(), Fixed::max_value()),
                (fx(-4.0), fx(0.0)),
            ];
            for (t_min, t_max) in windows {
                let a = tree.hit(&r, t_min, t_max, &mut rng);
                let b = list.hit(&r, t_min, t_max, &mut rng);
                assert!(same_hit(&a, &b), "{} objects, ray {}", count, n);
                if a.is_some() {
                    found += 1;
                }
            }
            n += 1;
        }
        assert!(found > 50, "{} hits with {} objects", found, count);
    }
}

#[test]
fn hierarchy_prefers_the_left_of_two_spheres_on_a_tie() {
    let first = gray(0.1);
    let second = gray(0.2);
    let a = sphere(0.0, 0.0, -3.0, 1.0, &first);
    let b = sphere(0.0, 0.0, -3.0, 1.0, &second);
    let bounding_box = a.bounding_box().unwrap();
    let node = BVH { left: a, right: b, bounding_box };
    let mut rng = RandomSource::from_seed(1);
    let r = ray(v(0.0, 0.0, 0.0), v(0.0, 0.0, -1.0));
    let h = node.hit(&r, fx(0.0), Fixed::max_value(), &mut rng).unwrap();
    assert!(Rc::ptr_eq(&h.material, &first));
    assert!(node.hit(&r, fx(0.0), fx(1.5), &mut rng).is_none());
    let off = ray(v(0.0, 3.0, 0.0), v(0.0, 0.0, -1.0));
    assert!(node.hit(&off, fx(0.0), Fixed::max_value(), &mut rng).is_none());
}

#[test]
fn hierarchy_rejects_what_its_box_rejects() {
    let m = gray(0.5);
    let a = sphere(0.0, 0.0, -3.0, 1.0, &m);
    let b = sphere(0.0, 0.0, -6.0, 1.0, &m);
    let narrow = boxed(v(5.0, 5.0, 5.0), v(6.0, 6.0, 6.0));
    let node = BVH { left: a, right: b, bounding_box: narrow };
    let mut rng = RandomSource::from_seed(1);
    let r = ray(v(0.0, 0.0, 0.0), v(0.0, 0.0, -1.0));
    assert!(node.hit(&r, fx(0.0), Fixed::max_value(), &mut rng).is_none());
}

#[test]
fn normals_never_point_along_the_ray() {
    let m = gray(0.5);
    let mut rng = RandomSource::from_seed(91);
    let mut hits = 0;
    let mut n = 0;
    while n < 600 {
        let c = Vec3::random_in(fx(-3.0), fx(3.0), &mut rng);
        let radius = rng.between(fx(0.2), fx(2.0));
        let s = Sphere::new(&c, radius, Rc::clone(&m));
        let o = Vec3::random_in(fx(-6.0), fx(6.0), &mut rng);
        let target = c.add(Vec3::random_in(fx(-1.0), fx(1.0), &mut rng));
        let r = ray(o, target.sub(o));
        if let Some(h) = s.hit(&r, fx(0.0001), Fixed::max_value()) {
            assert!(r.dir().dot(h.normal).le(fx(0.0)));
            assert_eq!(h.p, r.at(h.t));
            assert!(h.t.ge(fx(0.0001)));
            hits += 1;
        }
        n += 1;
    }
    assert!(hits > 100);
}

#[test]
fn a_box_can_hide_a_sphere_thinner_than_a_rounding_step() {
    let m = gray(0.5);
    let tiny: Rc<Hittable> = Rc::new(Hittable::Sphere(Sphere::new(&v(0.0, 0.0, 0.0), Fixed::from_raw(1), Rc::clone(&m))));
    let other = sphere(0.0, -50.0, 0.0, 1.0, &m);
    let r = Ray::new(&Vec3::new(fx(-1.0), Fixed::from_raw(100), fx(0.0)), &v(1.0, 0.0, 0.0), Fixed::zero());
    let mut rng = RandomSource::from_seed(1);
    let list = HittableList { objects: vec![Rc::clone(&tiny), Rc::clone(&other)] };
    let tree = BVH::new(vec![tiny, other], &mut rng);
    let a = list.hit(&r, fx(0.0), Fixed::max_value(), &mut rng);
    let b = tree.hit(&r, fx(0.0), Fixed::max_value(), &mut rng);
    assert_eq!(a.unwrap().t, fx(1.0));
    assert!(b.is_none());
    let level = Ray::new(&v(-1.0, 0.0, 0.0), &v(1.0, 0.0, 0.0), Fixed::zero());
    let a = list.hit(&level, fx(0.0), Fixed::max_value(), &mut rng);
    let b = tree.hit(&level, fx(0.0), Fixed::max_value(), &mut rng);
    assert!(same_hit(&a, &b));
    assert!(a.is_some());
}

#[test]
fn list_and_hierarchy_agree_where_a_root_lies_on_the_end_of_the_window() {
    let m = gray(0.5);
    let near_one = sphere(0.0, 0.0, -3.0, 1.0, &m);
    let far_one = sphere(0.0, 0.0, -10.0, 1.0, &m);
    let mut rng = RandomSource::from_seed(1);
    let list = HittableList { objects: vec![Rc::clone(&near_one), Rc::clone(&far_one)] };
    let tree = BVH::new(vec![near_one, far_one], &mut rng);
    let r = ray(v(0.0, 0.0, 0.0), v(0.0, 0.0, -1.0));
    let a = list.hit(&r, fx(0.0), fx(2.0), &mut rng);
    let b = tree.hit(&r, fx(0.0), fx(2.0), &mut rng);
    assert!(a.is_none());
    assert!(b.is_none());
    let a = list.hit(&r, fx(2.0), fx(9.0), &mut rng);
    let b = tree.hit(&r, fx(2.0), fx(9.0), &mut rng);
    assert!(same_hit(&a, &b));
    assert_eq!(a.unwrap().t, fx(4.0));
    for t_max in [2.000001, 2.5, 9.0, 100.0] {
        let a = list.hit(&r, fx(0.0), fx(t_max), &mut rng);
        let b = tree.hit(&r, fx(0.0), fx(t_max), &mut rng);
        assert!(same_hit(&a, &b));
        assert_eq!(a.unwrap().t, fx(2.0));
    }
}

#[test]
fn sphere_along_an_axis_is_hit_at_distance_minus_radius_to_a_unit() {
    let m = gray(0.5);
    let axes = [(1.0, 0.0, 0.0), (-1.0, 0.0, 0.0), (0.0, 1.0, 0.0), (0.0, -1.0, 0.0), (0.0, 0.0, 1.0), (0.0, 0.0, -1.0)];
    let mut rng = RandomSource::from_seed(19);
    let mut n = 0;
    while n < 300 {
        let c = Vec3::random_in(fx(-100.0), fx(100.0), &mut rng);
        let radius = rng.between(fx(0.500001), fx(50.0));
        let d = radius.add(rng.between(fx(0.001), fx(5000.0)));
        let axis = axes[n % 6];
        let dir = v(axis.0, axis.1, axis.2);
        let origin = c.sub(dir.scale(d));
        let s = Sphere::new(&c, radius, Rc::clone(&m));
        let h = s.hit(&ray(origin, dir), fx(0.0001), Fixed::max_value()).unwrap();
        let want = d.to_raw() - radius.to_raw();
        assert!(h.t.to_raw() == want || h.t.to_raw() == want + 1, "{} for {}", h.t.to_raw(), want);
        assert!(h.front_face);
        let off = h.p.sub(c);
        let reach = [off.x, off.y, off.z].iter().map(|k| k.to_raw().abs()).max().unwrap();
        assert!(reach == radius.to_raw() || reach == radius.to_raw() - 1);
        let gap = h.normal.add(dir);
        assert!([gap.x, gap.y, gap.z].iter().all(|k| k.to_raw().abs() <= 2));
        assert!(dir.dot(h.normal).lt(fx(0.0)));
        assert_eq!(h.p, ray(origin, dir).at(h.t));
        n += 1;
    }
}

fn flatten(x: &Rc<Hittable>, out: &mut Vec<Rc<Hittable>>) {
    match &**x {
        Hittable::HittableList(l) => l.objects.iter().for_each(|o| flatten(o, out)),
        Hittable::AABox(b) => b.sides.objects.iter().for_each(|o| flatten(o, out)),
        Hittable::BVH(n) => {
            flatten(&n.left, out);
            flatten(&n.right, out);
        }
        Hittable::ConstantMedium(_) => {}
        _ => out.push(Rc::clone(x)),
    }
}

#[test]
fn list_of_collections_returns_the_nearest_hit_of_all() {
    let mut rng = RandomSource::from_seed(404);
    let m = gray(0.5);
    let inner = HittableList {
        objects: vec![
            sphere(2.0, 2.0, -6.0, 1.0, &m),
            Rc::new(Hittable::AARect(AARect::new_xy(fx(-3.0), fx(0.0), fx(-3.0), fx(0.0), fx(-9.0), Rc::clone(&m)))),
            Rc::new(Hittable::AABox(AABox::new(&v(-4.0, 1.0, -8.0), &v(-2.0, 3.0, -5.0), Rc::clone(&m)))),
        ],
    };
    let tree = BVH::new(scattered_spheres(12, &mut rng), &mut rng);
    let outer = HittableList {
        objects: vec![
            sphere(0.0, 0.0, -4.0, 1.0, &m),
            Rc::new(Hittable::AABox(AABox::new(&v(1.0, -3.0, -7.0), &v(3.0, -1.0, -4.0), Rc::clone(&m)))),
            Rc::new(Hittable::HittableList(inner)),
            Rc::new(Hittable::BVH(tree)),
            Rc::new(Hittable::HittableList(HittableList::default())),
        ],
    };
    let mut parts = Vec::new();
    outer.objects.iter().for_each(|o| flatten(o, &mut parts));
    assert_eq!(parts.len(), 1 + 6 + 1 + 1 + 6 + 16);
    let mut found = 0;
    let mut n = 0;
    while n < 600 {
        let o = Vec3::random_in(fx(-1.0), fx(1.0), &mut rng).add(v(0.0, 0.0, 4.0));
        let target = Vec3::random_in(fx(-6.0), fx(6.0), &mut rng).add(v(0.0, 0.0, -6.0));
        let r = ray(o, target.sub(o).unit_vector());
        for (t_min, t_max) in [(fx(0.0001), Fixed::max_value()), (fx(6.0), fx(11.0)), (fx(0.0), fx(9.5))] {
            let got = outer.hit(&r, t_min, t_max, &mut rng);
            let nearest = parts
                .iter()
                .filter_map(|p| p.hit(&r, t_min, t_max, &mut rng))
                .map(|h| h.t)
                .min_by_key(|t| t.to_raw());
            assert_eq!(got.as_ref().map(|h| h.t), nearest, "ray {}", n);
            if let Some(h) = got {
                assert!(h.t.ge(t_min) && h.t.le(t_max));
                assert!(parts.iter().any(|p| same_hit(&p.hit(&r, t_min, t_max, &mut rng), &Some(HitRecord {
                    t: h.t,
                    p: h.p,
                    normal: h.normal,
                    front_face: h.front_face,
                    material: Rc::clone(&h.material),
                    u: h.u,
                    v: h.v,
                }))));
                found += 1;
            }
        }
        n += 1;
    }
    assert!(found > 150, "{} hits", found);
}
