use raytracer::elementary::{acos, atan2, ln, log2, HALF_PI_RAW, PI_RAW};
use raytracer::fixed::{Fixed, ONE_RAW};
use raytracer::vec3::Vec3;

fn fx(x: f64) -> Fixed {
    Fixed::from_raw((x * 4294967296.0).round() as i64)
}

fn fl(x: Fixed) -> f64 {
    x.to_raw() as f64 / 4294967296.0
}

fn close(a: Fixed, b: f64, tol: f64) -> bool {
    (fl(a) - b).abs() <= tol
}

#[test]
fn constants_have_their_raw_values() {
    assert_eq!(Fixed::zero().to_raw(), 0);
    assert_eq!(Fixed::one().to_raw(), 1i64 << 32);
    assert_eq!(ONE_RAW, 4294967296);
    assert_eq!(Fixed::max_value().to_raw(), i64::MAX);
    assert_eq!(Fixed::min_value().to_raw(), i64::MIN);
    assert_eq!(Fixed::from_int(3).to_raw(), 3i64 << 32);
    assert_eq!(Fixed::from_int(-3).to_raw(), -(3i64 << 32));
}

#[test]
fn from_int_saturates() {
    assert_eq!(Fixed::from_int(i64::MAX).to_raw(), i64::MAX);
    assert_eq!(Fixed::from_int(i64::MIN).to_raw(), i64::MIN);
    assert_eq!(Fixed::from_int(1i64 << 31).to_raw(), i64::MAX);
}

#[test]
fn from_ratio_rounds_down() {
    assert_eq!(Fixed::from_ratio(1, 2).to_raw(), 1i64 << 31);
    assert_eq!(Fixed::from_ratio(1, 3).to_raw(), 1431655765);
    assert_eq!(Fixed::from_ratio(-1, 3).to_raw(), -1431655766);
    assert_eq!(Fixed::from_ratio(1, -3).to_raw(), -1431655766);
    assert_eq!(Fixed::from_ratio(-1, -3).to_raw(), 1431655765);
    assert_eq!(Fixed::from_ratio(255, 255).to_raw(), ONE_RAW);
}

#[test]
fn addition_and_subtraction_saturate() {
    assert_eq!(fx(1.5).add(fx(2.25)), fx(3.75));
    assert_eq!(fx(1.5).sub(fx(2.25)), fx(-0.75));
    assert_eq!(Fixed::max_value().add(Fixed::one()), Fixed::max_value());
    assert_eq!(Fixed::min_value().sub(Fixed::one()), Fixed::min_value());
    assert_eq!(Fixed::max_value().sub(Fixed::min_value()), Fixed::max_value());
    assert_eq!(Fixed::min_value().add(Fixed::max_value()).to_raw(), -1);
}

#[test]
fn multiplication_rounds_down_and_saturates() {
    assert_eq!(fx(1.5).mul(fx(2.5)), fx(3.75));
    assert_eq!(fx(-1.5).mul(fx(2.5)), fx(-3.75));
    assert_eq!(Fixed::from_raw(1).mul(Fixed::from_raw(1)).to_raw(), 0);
    assert_eq!(Fixed::from_raw(-1).mul(Fixed::from_raw(1)).to_raw(), -1);
    assert_eq!(Fixed::from_raw(3).mul(fx(0.5)).to_raw(), 1);
    assert_eq!(Fixed::from_raw(-3).mul(fx(0.5)).to_raw(), -2);
    assert_eq!(Fixed::max_value().mul(fx(2.0)), Fixed::max_value());
    assert_eq!(Fixed::max_value().mul(fx(-2.0)), Fixed::min_value());
    assert_eq!(Fixed::min_value().mul(Fixed::min_value()), Fixed::max_value());
    assert_eq!(Fixed::zero().mul(Fixed::max_value()), Fixed::zero());
}

#[test]
fn division_rounds_down_and_saturates() {
    assert_eq!(fx(3.75).div(fx(2.5)), fx(1.5));
    assert_eq!(fx(1.0).div(fx(3.0)).to_raw(), 1431655765);
    assert_eq!(fx(-1.0).div(fx(3.0)).to_raw(), -1431655766);
    assert_eq!(fx(1.0).div(fx(-3.0)).to_raw(), -1431655766);
    assert_eq!(fx(1.0).div(Fixed::from_raw(1)), Fixed::max_value());
    assert_eq!(fx(-1.0).div(Fixed::from_raw(1)), Fixed::min_value());
}

#[test]
fn division_by_zero_gives_the_signed_limit() {
    assert_eq!(fx(2.0).div(Fixed::zero()), Fixed::max_value());
    assert_eq!(fx(-2.0).div(Fixed::zero()), Fixed::min_value());
    assert_eq!(Fixed::zero().div(Fixed::zero()), Fixed::zero());
}

#[test]
fn negation_and_absolute_value() {
    assert_eq!(fx(1.25).neg(), fx(-1.25));
    assert_eq!(fx(-1.25).abs(), fx(1.25));
    assert_eq!(fx(1.25).abs(), fx(1.25));
    assert_eq!(Fixed::min_value().neg(), Fixed::max_value());
    assert_eq!(Fixed::min_value().abs(), Fixed::max_value());
}

#[test]
fn min_max_clamp_and_comparisons() {
    assert_eq!(fx(1.0).min(fx(2.0)), fx(1.0));
    assert_eq!(fx(1.0).max(fx(2.0)), fx(2.0));
    assert_eq!(fx(5.0).clamp(fx(0.0), fx(1.0)), fx(1.0));
    assert_eq!(fx(-5.0).clamp(fx(0.0), fx(1.0)), fx(0.0));
    assert_eq!(fx(0.5).clamp(fx(0.0), fx(1.0)), fx(0.5));
    assert!(fx(1.0).lt(fx(2.0)));
    assert!(!fx(2.0).lt(fx(2.0)));
    assert!(fx(2.0).le(fx(2.0)));
    assert!(fx(3.0).gt(fx(2.0)));
    assert!(fx(2.0).ge(fx(2.0)));
    assert!(!fx(1.0).ge(fx(2.0)));
}

#[test]
fn square_root_rounds_down() {
    assert_eq!(fx(4.0).sqrt(), fx(2.0));
    assert_eq!(fx(2.25).sqrt(), fx(1.5));
    assert_eq!(fx(2.0).sqrt().to_raw(), 6074000999);
    assert_eq!(Fixed::zero().sqrt(), Fixed::zero());
    assert_eq!(fx(-4.0).sqrt(), Fixed::zero());
    assert_eq!(Fixed::from_raw(1).sqrt().to_raw(), 65536);
    let r = Fixed::max_value().sqrt().to_raw() as i128;
    let n = (i64::MAX as i128) << 32;
    assert!(r * r <= n && n < (r + 1) * (r + 1));
}

#[test]
fn remainder_lies_between_zero_and_the_divisor() {
    assert_eq!(fx(5.5).rem(fx(2.0)), fx(1.5));
    assert_eq!(fx(-0.5).rem(fx(2.0)), fx(1.5));
    assert_eq!(fx(-4.0).rem(fx(2.0)), fx(0.0));
    assert_eq!(fx(4.0).rem(fx(2.0)), fx(0.0));
    assert_eq!(fx(4.0).rem(fx(0.0)), fx(0.0));
    assert_eq!(fx(4.0).rem(fx(-3.0)), fx(0.0));
    assert_eq!(Fixed::min_value().rem(Fixed::max_value()).to_raw(), i64::MAX - 1);
}

#[test]
fn arctangent_on_the_axes() {
    assert_eq!(atan2(Fixed::zero(), Fixed::zero()), Fixed::zero());
    assert!(close(atan2(fx(0.0), fx(1.0)), 0.0, 1e-7));
    assert!(close(atan2(fx(1.0), fx(0.0)), std::f64::consts::FRAC_PI_2, 1e-7));
    assert!(close(atan2(fx(0.0), fx(-1.0)), std::f64::consts::PI, 1e-7));
    assert!(close(atan2(fx(-1.0), fx(0.0)), -std::f64::consts::FRAC_PI_2, 1e-7));
    assert!(close(Fixed::from_raw(PI_RAW), std::f64::consts::PI, 1e-9));
    assert!(close(Fixed::from_raw(HALF_PI_RAW), std::f64::consts::FRAC_PI_2, 1e-9));
}

#[test]
fn arctangent_follows_the_angle() {
    let mut k = 0;
    while k < 64 {
        let angle = -3.1 + 0.097 * k as f64;
        let (y, x) = (angle.sin() * 2.5, angle.cos() * 2.5);
        assert!(close(atan2(fx(y), fx(x)), y.atan2(x), 1e-6), "angle {}", angle);
        k += 1;
    }
    assert!(close(atan2(fx(1e-5), fx(3e-5)), (1.0f64).atan2(3.0), 1e-4));
    assert!(close(atan2(fx(3e8), fx(-1e8)), (3.0f64).atan2(-1.0), 1e-6));
}

#[test]
fn arccosine_follows_the_angle() {
    assert!(close(acos(fx(1.0)), 0.0, 1e-4));
    assert!(close(acos(fx(0.0)), std::f64::consts::FRAC_PI_2, 1e-6));
    assert!(close(acos(fx(-1.0)), std::f64::consts::PI, 1e-4));
    assert!(close(acos(fx(0.5)), (0.5f64).acos(), 1e-6));
    assert!(close(acos(fx(-0.25)), (-0.25f64).acos(), 1e-6));
    assert_eq!(acos(fx(7.0)), acos(fx(1.0)));
    assert_eq!(acos(fx(-7.0)), acos(fx(-1.0)));
}

#[test]
fn logarithms_of_powers_of_two_are_whole() {
    assert_eq!(log2(fx(1.0)), fx(0.0));
    assert_eq!(log2(fx(2.0)), fx(1.0));
    assert_eq!(log2(fx(8.0)), fx(3.0));
    assert_eq!(log2(fx(0.25)), fx(-2.0));
    assert_eq!(log2(Fixed::from_raw(1)), fx(-32.0));
    assert_eq!(log2(Fixed::zero()), Fixed::min_value());
    assert_eq!(log2(fx(-1.0)), Fixed::min_value());
    assert_eq!(ln(fx(1.0)), fx(0.0));
}

#[test]
fn natural_logarithm_follows_the_curve() {
    let samples = [0.001, 0.01, 0.1, 0.3, 0.5, 0.9, 0.999, 1.5, 2.718281828, 10.0, 12345.678];
    for x in samples {
        assert!(close(ln(fx(x)), fl(fx(x)).ln(), 1e-6), "ln {}", x);
        assert!(close(log2(fx(x)), fl(fx(x)).log2(), 1e-6), "log2 {}", x);
    }
    assert_eq!(ln(Fixed::zero()), Fixed::min_value());
}

#[test]
fn vector_arithmetic_is_component_wise() {
    let a = Vec3::new(fx(1.0), fx(2.0), fx(3.0));
    let b = Vec3::new(fx(0.5), fx(-1.0), fx(4.0));
    assert_eq!(a.add(b), Vec3::new(fx(1.5), fx(1.0), fx(7.0)));
    assert_eq!(a.sub(b), Vec3::new(fx(0.5), fx(3.0), fx(-1.0)));
    assert_eq!(a.mul(b), Vec3::new(fx(0.5), fx(-2.0), fx(12.0)));
    assert_eq!(a.scale(fx(2.0)), Vec3::new(fx(2.0), fx(4.0), fx(6.0)));
    assert_eq!(a.div(fx(2.0)), Vec3::new(fx(0.5), fx(1.0), fx(1.5)));
    assert_eq!(a.neg(), Vec3::new(fx(-1.0), fx(-2.0), fx(-3.0)));
    assert_eq!(a.dot(b), fx(10.5));
    assert_eq!(a.cross(b), Vec3::new(fx(11.0), fx(-2.5), fx(-2.0)));
    assert_eq!(a.length_squared(), fx(14.0));
    assert_eq!(Vec3::new(fx(3.0), fx(0.0), fx(4.0)).length(), fx(5.0));
    assert_eq!(a.x(), fx(1.0));
    assert_eq!(a.y(), fx(2.0));
    assert_eq!(a.z(), fx(3.0));
    assert_eq!(a.axis(0), fx(1.0));
    assert_eq!(a.axis(1), fx(2.0));
    assert_eq!(a.axis(2), fx(3.0));
    assert_eq!(Vec3::zero(), Vec3::new(fx(0.0), fx(0.0), fx(0.0)));
    assert_eq!(Vec3::default(), Vec3::zero());
}

#[test]
fn unit_vector_has_unit_length() {
    let v = Vec3::new(fx(3.0), fx(0.0), fx(4.0)).unit_vector();
    assert_eq!(v, Vec3::new(Fixed::from_ratio(3, 5), fx(0.0), Fixed::from_ratio(4, 5)));
    let w = Vec3::new(fx(1.0), fx(-2.0), fx(0.5)).unit_vector();
    assert!(close(w.length(), 1.0, 1e-8));
    assert_eq!(Vec3::zero().unit_vector(), Vec3::zero());
}

#[test]
fn near_zero_looks_at_every_component() {
    assert!(Vec3::zero().near_zero());
    assert!(Vec3::new(Fixed::from_raw(41), Fixed::from_raw(-41), Fixed::from_raw(0)).near_zero());
    assert!(!Vec3::new(Fixed::from_raw(42), Fixed::from_raw(0), Fixed::from_raw(0)).near_zero());
    assert!(!Vec3::new(Fixed::from_raw(0), Fixed::from_raw(-42), Fixed::from_raw(0)).near_zero());
    assert!(!Vec3::new(Fixed::from_raw(0), Fixed::from_raw(0), fx(1.0)).near_zero());
}

fn unit_of_raw(x: i64, y: i64, z: i64) -> (f64, f64, f64) {
    let n = ((x as f64).powi(2) + (y as f64).powi(2) + (z as f64).powi(2)).sqrt();
    (x as f64 / n, y as f64 / n, z as f64 / n)
}

fn close3(a: Vec3, b: (f64, f64, f64), tol: f64) -> bool {
    close(a.x, b.0, tol) && close(a.y, b.1, tol) && close(a.z, b.2, tol)
}

#[test]
fn leveling_brings_the_largest_component_between_half_and_one() {
    assert_eq!(Vec3::new(fx(3.0), fx(0.0), fx(-4.0)).leveled(), Vec3::new(fx(0.375), fx(0.0), fx(-0.5)));
    assert_eq!(Vec3::new(fx(0.5), fx(0.25), fx(0.0)).leveled(), Vec3::new(fx(0.5), fx(0.25), fx(0.0)));
    assert_eq!(Vec3::new(fx(1.0), fx(0.0), fx(0.0)).leveled(), Vec3::new(fx(0.5), fx(0.0), fx(0.0)));
    assert_eq!(
        Vec3::new(Fixed::from_raw(1), Fixed::from_raw(0), Fixed::from_raw(-1)).leveled(),
        Vec3::new(fx(0.5), fx(0.0), fx(-0.5))
    );
    assert_eq!(
        Vec3::new(Fixed::from_raw(3), Fixed::from_raw(-2), Fixed::from_raw(1)).leveled(),
        Vec3::new(fx(0.75), fx(-0.5), fx(0.25))
    );
    assert_eq!(
        Vec3::new(Fixed::min_value(), Fixed::max_value(), Fixed::from_raw(-1)).leveled(),
        Vec3::new(fx(-0.5), Fixed::from_raw((1i64 << 31) - 1), Fixed::from_raw(-1))
    );
    assert_eq!(Vec3::zero().leveled(), Vec3::zero());
    assert_eq!(
        Vec3::new(Fixed::from_raw(5), Fixed::from_raw(-5), Fixed::from_raw(0)).leveled(),
        Vec3::new(fx(0.625), fx(-0.625), fx(0.0))
    );
}

#[test]
fn unit_vector_keeps_the_direction_of_short_vectors() {
    let cases: [(i64, i64, i64); 8] = [
        (25770, 12885, 0),
        (25770, 12885, 859),
        (1, 0, 0),
        (0, -1, 0),
        (3, -4, 0),
        (42, 42, -42),
        (65536, 1, 1),
        (-92681, 65535, 7),
    ];
    for (x, y, z) in cases {
        let u = Vec3::new(Fixed::from_raw(x), Fixed::from_raw(y), Fixed::from_raw(z)).unit_vector();
        assert!(close3(u, unit_of_raw(x, y, z), 1e-8), "{:?} gives {:?}", (x, y, z), u);
        assert!(close(u.length(), 1.0, 1e-8));
    }
    assert_eq!(
        Vec3::new(Fixed::from_raw(1), Fixed::from_raw(0), Fixed::from_raw(0)).unit_vector(),
        Vec3::new(fx(1.0), fx(0.0), fx(0.0))
    );
}

#[test]
fn unit_vector_keeps_the_direction_of_long_vectors() {
    let cases: [(i64, i64, i64); 6] = [
        (1i64 << 62, 0, -(1i64 << 62)),
        (i64::MAX, i64::MAX, i64::MAX),
        (i64::MIN, 0, 0),
        (i64::MIN, i64::MAX, i64::MIN),
        (46341i64 << 32, 46341i64 << 32, 1 << 32),
        (1000i64 << 32, -(2000i64 << 32), 3000i64 << 32),
    ];
    for (x, y, z) in cases {
        let u = Vec3::new(Fixed::from_raw(x), Fixed::from_raw(y), Fixed::from_raw(z)).unit_vector();
        assert!(close3(u, unit_of_raw(x, y, z), 1e-8), "{:?} gives {:?}", (x, y, z), u);
    }
    assert_eq!(
        Vec3::new(Fixed::min_value(), fx(0.0), fx(0.0)).unit_vector(),
        Vec3::new(fx(-1.0), fx(0.0), fx(0.0))
    );
}

#[test]
fn unit_vector_stays_within_the_unit_cube() {
    let mut rng = raytracer::random::RandomSource::from_seed(61);
    let mut n = 0;
    while n < 3000 {
        let shift = rng.below(0, 62) as u32;
        let pick = |rng: &mut raytracer::random::RandomSource| {
            Fixed::from_raw(rng.below(i64::MIN, i64::MAX) >> shift)
        };
        let v = Vec3::new(pick(&mut rng), pick(&mut rng), pick(&mut rng));
        let u = v.unit_vector();
        for c in [u.x, u.y, u.z] {
            assert!(c.ge(fx(-1.0)) && c.le(fx(1.0)));
        }
        if v != Vec3::zero() {
            assert!(!u.near_zero());
            assert!(close(u.length(), 1.0, 1e-8), "{:?} gives {:?}", v, u);
            let (x, y, z) = (v.x.to_raw(), v.y.to_raw(), v.z.to_raw());
            let largest = x.unsigned_abs().max(y.unsigned_abs()).max(z.unsigned_abs());
            let tol = if largest >= 1 << 31 { 1e-8 } else { 1.5 / largest as f64 + 1e-8 };
            assert!(close3(u, unit_of_raw(x, y, z), tol), "{:?} gives {:?}", v, u);
        }
        n += 1;
    }
}
