//! Three-component vectors, used for points, directions and colors.

use vstd::prelude::*;
use vstd::arithmetic::logarithm::log;
use vstd::arithmetic::power2::lemma2_to64;
use vstd::arithmetic::power2::lemma2_to64_rest;
use vstd::arithmetic::power2::lemma_pow2_adds;
use vstd::arithmetic::power2::lemma_pow2_pos;
use vstd::arithmetic::power2::lemma_pow2_strictly_increases;
use vstd::arithmetic::power2::lemma_pow2_unfold;
use vstd::arithmetic::power2::pow2;
use crate::elementary::lemma_log2_between;
use crate::elementary::lemma_log2_bounds;
use crate::fixed::floor_div;
use crate::fixed::floor_sqrt;
use crate::fixed::is_floor_sqrt;
use crate::fixed::lemma_floor_sqrt_exists;
use crate::fixed::lemma_quotient_bounds;
use crate::fixed::lemma_small_square;
use crate::fixed::Fixed;
use crate::fixed::ONE_RAW;
use crate::random::RandomSource;

verus! {

/// Raw bound below which a component counts as zero (about `1e-8`).
pub const NEAR_ZERO_RAW: i64 = 42;

#[derive(Clone, Copy, Debug, PartialEq, Eq, Structural)]
pub struct Vec3 {
    pub x: Fixed,
    pub y: Fixed,
    pub z: Fixed,
}

pub type Color = Vec3;

pub type Point3 = Vec3;

impl Vec3 {
    pub open spec fn spec_zero() -> Vec3 {
        Vec3 { x: Fixed { raw: 0 }, y: Fixed { raw: 0 }, z: Fixed { raw: 0 } }
    }

    /// Component `i`, counted from zero.
    pub open spec fn spec_axis(self, i: int) -> Fixed {
        if i == 0 {
            self.x
        } else if i == 1 {
            self.y
        } else {
            self.z
        }
    }

    pub open spec fn spec_add(self, other: Vec3) -> Vec3 {
        Vec3 {
            x: self.x.spec_add(other.x),
            y: self.y.spec_add(other.y),
            z: self.z.spec_add(other.z),
        }
    }

    pub open spec fn spec_sub(self, other: Vec3) -> Vec3 {
        Vec3 {
            x: self.x.spec_sub(other.x),
            y: self.y.spec_sub(other.y),
            z: self.z.spec_sub(other.z),
        }
    }

    /// Component-wise product.
    pub open spec fn spec_mul(self, other: Vec3) -> Vec3 {
        Vec3 {
            x: self.x.spec_mul(other.x),
            y: self.y.spec_mul(other.y),
            z: self.z.spec_mul(other.z),
        }
    }

    /// Every component times `k`.
    pub open spec fn spec_scale(self, k: Fixed) -> Vec3 {
        Vec3 { x: self.x.spec_mul(k), y: self.y.spec_mul(k), z: self.z.spec_mul(k) }
    }

    /// Every component divided by `k`.
    pub open spec fn spec_div(self, k: Fixed) -> Vec3 {
        Vec3 { x: self.x.spec_div(k), y: self.y.spec_div(k), z: self.z.spec_div(k) }
    }

    pub open spec fn spec_neg(self) -> Vec3 {
        Vec3 { x: self.x.spec_neg(), y: self.y.spec_neg(), z: self.z.spec_neg() }
    }

    pub open spec fn spec_dot(self, other: Vec3) -> Fixed {
        self.x.spec_mul(other.x).spec_add(self.y.spec_mul(other.y)).spec_add(
            self.z.spec_mul(other.z),
        )
    }

    pub open spec fn spec_length_squared(self) -> Fixed {
        self.spec_dot(self)
    }

    pub open spec fn spec_length(self) -> Fixed {
        self.spec_length_squared().spec_sqrt()
    }

    pub open spec fn spec_cross(self, other: Vec3) -> Vec3 {
        Vec3 {
            x: self.y.spec_mul(other.z).spec_sub(self.z.spec_mul(other.y)),
            y: self.z.spec_mul(other.x).spec_sub(self.x.spec_mul(other.z)),
            z: self.x.spec_mul(other.y).spec_sub(self.y.spec_mul(other.x)),
        }
    }

    /// The largest magnitude among the raw components.
    pub open spec fn spec_largest(self) -> int {
        let ax = if self.x.raw < 0 { -self.x.raw } else { self.x.raw as int };
        let ay = if self.y.raw < 0 { -self.y.raw } else { self.y.raw as int };
        let az = if self.z.raw < 0 { -self.z.raw } else { self.z.raw as int };
        if ax >= ay && ax >= az {
            ax
        } else if ay >= az {
            ay
        } else {
            az
        }
    }

    /// The vector times the power of two that brings its largest component
    /// between one half and one: the direction is kept, and the length
    /// can then be taken without loss.  The zero vector stays as it is.
    /// A vector that is scaled down has its components rounded down.
    pub open spec fn spec_leveled(self) -> Vec3 {
        let m = self.spec_largest();
        if m == 0 {
            self
        } else if log(2, m) <= 31 {
            let f = pow2((31 - log(2, m)) as nat);
            Vec3 {
                x: Fixed { raw: (self.x.raw * f) as i64 },
                y: Fixed { raw: (self.y.raw * f) as i64 },
                z: Fixed { raw: (self.z.raw * f) as i64 },
            }
        } else {
            let f = pow2((log(2, m) - 31) as nat);
            Vec3 {
                x: Fixed { raw: (self.x.raw as int / f as int) as i64 },
                y: Fixed { raw: (self.y.raw as int / f as int) as i64 },
                z: Fixed { raw: (self.z.raw as int / f as int) as i64 },
            }
        }
    }

    /// The vector scaled to unit length: the leveled vector divided by its
    /// length, each component cut to the interval from -1 to 1, which
    /// rounding alone can take it out of.  The zero vector has no direction
    /// and is returned as it is.
    pub open spec fn spec_unit_vector(self) -> Vec3 {
        let w = self.spec_leveled();
        let len = w.spec_length();
        let one = Fixed { raw: ONE_RAW };
        Vec3 {
            x: w.x.spec_div(len).spec_clamp(one.spec_neg(), one),
            y: w.y.spec_div(len).spec_clamp(one.spec_neg(), one),
            z: w.z.spec_div(len).spec_clamp(one.spec_neg(), one),
        }
    }

    /// Every component lies between -1 and 1, ends included.
    pub open spec fn within_unit(self) -> bool {
        &&& -ONE_RAW <= self.x.raw <= ONE_RAW
        &&& -ONE_RAW <= self.y.raw <= ONE_RAW
        &&& -ONE_RAW <= self.z.raw <= ONE_RAW
    }

    /// Every component is closer to zero than [`NEAR_ZERO_RAW`].
    pub open spec fn spec_near_zero(self) -> bool {
        &&& self.x.spec_abs().raw < NEAR_ZERO_RAW
        &&& self.y.spec_abs().raw < NEAR_ZERO_RAW
        &&& self.z.spec_abs().raw < NEAR_ZERO_RAW
    }

    pub fn new(x: Fixed, y: Fixed, z: Fixed) -> (r: Vec3)
        ensures
            r == (Vec3 { x, y, z }),
    {
        Vec3 { x, y, z }
    }

    /// The zero vector, which is also the color black.
    pub fn zero() -> (r: Vec3)
        ensures
            r == Vec3::spec_zero(),
    {
        Vec3 { x: Fixed::zero(), y: Fixed::zero(), z: Fixed::zero() }
    }

    /// A vector whose components are drawn from `[0, 1)`.
    pub fn random(rng: &mut RandomSource) -> (r: Vec3)
        ensures
            0 <= r.x.raw < ONE_RAW,
            0 <= r.y.raw < ONE_RAW,
            0 <= r.z.raw < ONE_RAW,
    {
        let x = rng.unit();
        let y = rng.unit();
        let z = rng.unit();
        Vec3 { x, y, z }
    }

    /// A vector whose components are drawn from `[min, max)`.
    pub fn random_in(min: Fixed, max: Fixed, rng: &mut RandomSource) -> (r: Vec3)
        requires
            min.raw < max.raw,
        ensures
            min.raw <= r.x.raw < max.raw,
            min.raw <= r.y.raw < max.raw,
            min.raw <= r.z.raw < max.raw,
    {
        let x = rng.between(min, max);
        let y = rng.between(min, max);
        let z = rng.between(min, max);
        Vec3 { x, y, z }
    }

    pub fn x(&self) -> (r: Fixed)
        ensures
            r == self.x,
    {
        self.x
    }

    pub fn y(&self) -> (r: Fixed)
        ensures
            r == self.y,
    {
        self.y
    }

    pub fn z(&self) -> (r: Fixed)
        ensures
            r == self.z,
    {
        self.z
    }

    /// Component `i`, counted from zero.
    pub fn axis(&self, i: usize) -> (r: Fixed)
        requires
            i < 3,
        ensures
            r == self.spec_axis(i as int),
    {
        if i == 0 {
            self.x
        } else if i == 1 {
            self.y
        } else {
            self.z
        }
    }

    pub fn add(self, other: Vec3) -> (r: Vec3)
        ensures
            r == self.spec_add(other),
    {
        Vec3 { x: self.x.add(other.x), y: self.y.add(other.y), z: self.z.add(other.z) }
    }

    pub fn sub(self, other: Vec3) -> (r: Vec3)
        ensures
            r == self.spec_sub(other),
    {
        Vec3 { x: self.x.sub(other.x), y: self.y.sub(other.y), z: self.z.sub(other.z) }
    }

    pub fn mul(self, other: Vec3) -> (r: Vec3)
        ensures
            r == self.spec_mul(other),
    {
        Vec3 { x: self.x.mul(other.x), y: self.y.mul(other.y), z: self.z.mul(other.z) }
    }

    pub fn scale(self, k: Fixed) -> (r: Vec3)
        ensures
            r == self.spec_scale(k),
    {
        Vec3 { x: self.x.mul(k), y: self.y.mul(k), z: self.z.mul(k) }
    }

    pub fn div(self, k: Fixed) -> (r: Vec3)
        ensures
            r == self.spec_div(k),
    {
        Vec3 { x: self.x.div(k), y: self.y.div(k), z: self.z.div(k) }
    }

    pub fn neg(self) -> (r: Vec3)
        ensures
            r == self.spec_neg(),
    {
        Vec3 { x: self.x.neg(), y: self.y.neg(), z: self.z.neg() }
    }

    pub fn length_squared(&self) -> (r: Fixed)
        ensures
            r == self.spec_length_squared(),
    {
        self.dot(*self)
    }

    pub fn length(&self) -> (r: Fixed)
        ensures
            r == self.spec_length(),
    {
        self.length_squared().sqrt()
    }

    pub fn dot(&self, other: Vec3) -> (r: Fixed)
        ensures
            r == self.spec_dot(other),
    {
        self.x.mul(other.x).add(self.y.mul(other.y)).add(self.z.mul(other.z))
    }

    pub fn cross(&self, other: Vec3) -> (r: Vec3)
        ensures
            r == self.spec_cross(other),
    {
        Vec3 {
            x: self.y.mul(other.z).sub(self.z.mul(other.y)),
            y: self.z.mul(other.x).sub(self.x.mul(other.z)),
            z: self.x.mul(other.y).sub(self.y.mul(other.x)),
        }
    }

    /// The vector times the power of two that brings its largest component
    /// between one half and one.
    pub fn leveled(&self) -> (r: Vec3)
        ensures
            r == self.spec_leveled(),
    {
        let xw: i128 = self.x.raw as i128;
        let yw: i128 = self.y.raw as i128;
        let zw: i128 = self.z.raw as i128;
        let ax: i128 = if xw < 0 { -xw } else { xw };
        let ay: i128 = if yw < 0 { -yw } else { yw };
        let az: i128 = if zw < 0 { -zw } else { zw };
        let m: i128 = if ax >= ay && ax >= az {
            ax
        } else if ay >= az {
            ay
        } else {
            az
        };
        if m == 0 {
            return *self;
        }
        let mut p: i128 = 1;
        let mut e: u32 = 0;
        proof {
            lemma2_to64();
            lemma2_to64_rest();
        }
        while p * 2 <= m
            invariant
                p == pow2(e as nat),
                1 <= p <= m <= 0x8000_0000_0000_0000,
                e <= 63,
            decreases m - p,
        {
            proof {
                lemma_pow2_unfold((e + 1) as nat);
                lemma2_to64_rest();
                if e + 1 > 63 {
                    lemma_pow2_strictly_increases(63, (e + 1) as nat);
                }
            }
            p = p * 2;
            e = e + 1;
        }
        proof {
            lemma_pow2_unfold((e + 1) as nat);
            lemma_log2_between(m as int, e as nat);
            lemma2_to64();
        }
        if e <= 31 {
            let mut f: i128 = 1;
            let mut j: u32 = e;
            while j < 31
                invariant
                    e <= j <= 31,
                    f == pow2((j - e) as nat),
                    1 <= f <= 0x8000_0000,
                decreases 31 - j,
            {
                proof {
                    lemma_pow2_unfold((j + 1 - e) as nat);
                    lemma2_to64();
                    if j + 1 - e < 31 {
                        lemma_pow2_strictly_increases((j + 1 - e) as nat, 31);
                    }
                }
                f = f * 2;
                j = j + 1;
            }
            proof {
                lemma_pow2_adds(e as nat, (31 - e) as nat);
                lemma2_to64();
                assert(p * f == 0x8000_0000);
                assert(-0x1_0000_0000 < xw * f < 0x1_0000_0000 && -0x1_0000_0000 < yw * f
                    < 0x1_0000_0000 && -0x1_0000_0000 < zw * f < 0x1_0000_0000)
                    by (nonlinear_arith)
                    requires
                        p * f == 0x8000_0000,
                        f >= 1,
                        -2 * p < xw < 2 * p,
                        -2 * p < yw < 2 * p,
                        -2 * p < zw < 2 * p,
                ;
            }
            Vec3 {
                x: Fixed { raw: (xw * f) as i64 },
                y: Fixed { raw: (yw * f) as i64 },
                z: Fixed { raw: (zw * f) as i64 },
            }
        } else {
            let mut f: i128 = 1;
            let mut j: u32 = 31;
            while j < e
                invariant
                    31 <= j <= e <= 63,
                    f == pow2((j - 31) as nat),
                    1 <= f <= 0x1_0000_0000,
                decreases e - j,
            {
                proof {
                    lemma_pow2_unfold((j + 1 - 31) as nat);
                    lemma2_to64();
                    if j + 1 - 31 < 32 {
                        lemma_pow2_strictly_increases((j + 1 - 31) as nat, 32);
                    }
                }
                f = f * 2;
                j = j + 1;
            }
            Vec3 {
                x: Fixed { raw: floor_div(xw, f) as i64 },
                y: Fixed { raw: floor_div(yw, f) as i64 },
                z: Fixed { raw: floor_div(zw, f) as i64 },
            }
        }
    }

    /// The vector scaled to unit length; the zero vector as it is.  The
    /// result is accurate for every other vector, however short or long: see
    /// [`Vec3::lemma_unit_vector_accurate`].
    pub fn unit_vector(&self) -> (r: Vec3)
        ensures
            r == self.spec_unit_vector(),
            r.within_unit(),
    {
        let w = self.leveled();
        let len = w.length();
        let one = Fixed::one();
        let lo = one.neg();
        Vec3 {
            x: w.x.div(len).clamp(lo, one),
            y: w.y.div(len).clamp(lo, one),
            z: w.z.div(len).clamp(lo, one),
        }
    }

    pub fn near_zero(&self) -> (r: bool)
        ensures
            r == self.spec_near_zero(),
    {
        self.x.abs().raw < NEAR_ZERO_RAW && self.y.abs().raw < NEAR_ZERO_RAW && self.z.abs().raw
            < NEAR_ZERO_RAW
    }
}

/// The magnitude of a raw component.
pub open spec fn magnitude(a: Fixed) -> int {
    if a.raw < 0 {
        -a.raw
    } else {
        a.raw as int
    }
}

/// `u` is the quotient of `w` by `len`, up to what the cut to the interval
/// from -1 to 1 may take off: seven units in the last place.
pub open spec fn close_to_quotient(u: Fixed, w: Fixed, len: Fixed) -> bool {
    let q = (w.raw * ONE_RAW) / (len.raw as int);
    q - 7 <= u.raw <= q + 7
}

impl Vec3 {
    /// The exact squared length, in units of `2^-64`.
    pub open spec fn exact_square(self) -> int {
        self.x.raw * self.x.raw + self.y.raw * self.y.raw + self.z.raw * self.z.raw
    }

    /// The vector is leveled: its largest component lies between one half
    /// and one.
    pub open spec fn is_leveled(self) -> bool {
        0x8000_0000 <= self.spec_largest() <= 0x1_0000_0000
    }

    /// Every vector but the zero vector is leveled by leveling.
    pub proof fn lemma_leveled_bounds(self)
        requires
            self.spec_largest() > 0,
        ensures
            self.spec_leveled().is_leveled(),
    {
        let m = self.spec_largest();
        let e = log(2, m);
        lemma_log2_bounds(m);
        lemma2_to64();
        let x = self.x.raw as int;
        let y = self.y.raw as int;
        let z = self.z.raw as int;
        if e <= 31 {
            let f = pow2((31 - e) as nat) as int;
            lemma_pow2_pos((31 - e) as nat);
            lemma_pow2_adds(e as nat, (31 - e) as nat);
            lemma_pow2_adds((e + 1) as nat, (31 - e) as nat);
            let lo = pow2(e as nat) as int;
            let hi = pow2((e + 1) as nat) as int;
            assert(lo * f == 0x8000_0000 && hi * f == 0x1_0000_0000);
            assert(0x8000_0000 <= m * f < 0x1_0000_0000) by (nonlinear_arith)
                requires
                    lo <= m < hi,
                    f > 0,
                    lo * f == 0x8000_0000,
                    hi * f == 0x1_0000_0000,
            ;
            assert(-(m * f) <= x * f <= m * f && -(m * f) <= y * f <= m * f && -(m * f) <= z * f
                <= m * f) by (nonlinear_arith)
                requires
                    -m <= x <= m,
                    -m <= y <= m,
                    -m <= z <= m,
                    f > 0,
            ;
            assert((-x) * f == -(x * f) && (-y) * f == -(y * f) && (-z) * f == -(z * f))
                by (nonlinear_arith);
            assert(x * f == m * f || x * f == -(m * f) || y * f == m * f || y * f == -(m * f) || z
                * f == m * f || z * f == -(m * f));
        } else {
            let f = pow2((e - 31) as nat) as int;
            lemma_pow2_pos((e - 31) as nat);
            lemma_pow2_adds(31, (e - 31) as nat);
            lemma_pow2_adds(32, (e - 31) as nat);
            assert(0x8000_0000 * f == pow2(e as nat));
            assert(0x1_0000_0000 * f == pow2((e + 1) as nat));
            assert((-0x1_0000_0000) * f == -(0x1_0000_0000 * f)) by (nonlinear_arith);
            assert((-0x8000_0000 + 1) * f == -(0x8000_0000 * f) + f) by (nonlinear_arith);
            lemma_quotient_bounds(x, f, -0x1_0000_0000, 0x1_0000_0000);
            lemma_quotient_bounds(y, f, -0x1_0000_0000, 0x1_0000_0000);
            lemma_quotient_bounds(z, f, -0x1_0000_0000, 0x1_0000_0000);
            if x == m {
                lemma_quotient_bounds(x, f, 0x8000_0000, 0x1_0000_0000);
            } else if x == -m {
                lemma_quotient_bounds(x, f, -0x1_0000_0000, -0x8000_0000 + 1);
            } else if y == m {
                lemma_quotient_bounds(y, f, 0x8000_0000, 0x1_0000_0000);
            } else if y == -m {
                lemma_quotient_bounds(y, f, -0x1_0000_0000, -0x8000_0000 + 1);
            } else if z == m {
                lemma_quotient_bounds(z, f, 0x8000_0000, 0x1_0000_0000);
            } else {
                lemma_quotient_bounds(z, f, -0x1_0000_0000, -0x8000_0000 + 1);
            }
        }
    }

    /// The length of a leveled vector is its exact length to four units in
    /// the last place, and lies between one half and two.
    pub proof fn lemma_leveled_length(self)
        requires
            self.is_leveled(),
        ensures
            0x8000_0000 <= self.spec_length().raw < 0x2_0000_0000,
            self.spec_length().raw * self.spec_length().raw <= self.exact_square(),
            self.exact_square() < (self.spec_length().raw + 4) * (self.spec_length().raw + 4),
    {
        let s = ONE_RAW as int;
        lemma_small_square(self.x);
        lemma_small_square(self.y);
        lemma_small_square(self.z);
        let sx = self.x.spec_mul(self.x).raw as int;
        let sy = self.y.spec_mul(self.y).raw as int;
        let sz = self.z.spec_mul(self.z).raw as int;
        let l = sx + sy + sz;
        assert(self.spec_length_squared().raw == l);
        let m = self.spec_largest();
        assert(m * m >= 0x8000_0000 * 0x8000_0000) by (nonlinear_arith)
            requires
                m >= 0x8000_0000,
        ;
        assert(self.x.raw * self.x.raw == m * m || self.y.raw * self.y.raw == m * m || self.z.raw
            * self.z.raw == m * m) by (nonlinear_arith)
            requires
                self.x.raw == m || self.x.raw == -m || self.y.raw == m || self.y.raw == -m
                    || self.z.raw == m || self.z.raw == -m,
        ;
        assert(l >= 0x4000_0000) by (nonlinear_arith)
            requires
                sx * s + s > self.x.raw * self.x.raw,
                sy * s + s > self.y.raw * self.y.raw,
                sz * s + s > self.z.raw * self.z.raw,
                self.x.raw * self.x.raw >= 0x4000_0000 * s || self.y.raw * self.y.raw
                    >= 0x4000_0000 * s || self.z.raw * self.z.raw >= 0x4000_0000 * s,
                sx >= 0,
                sy >= 0,
                sz >= 0,
                l == sx + sy + sz,
                s == 0x1_0000_0000,
        ;
        let n = l * s;
        assert(n >= 0) by (nonlinear_arith)
            requires
                n == l * s,
                l >= 0,
                s > 0,
        ;
        lemma_floor_sqrt_exists(n);
        let len = floor_sqrt(n);
        assert(is_floor_sqrt(n, len));
        assert(len < 0x2_0000_0000) by (nonlinear_arith)
            requires
                len * len <= n,
                n == l * s,
                l <= 3 * s,
                s == 0x1_0000_0000,
                len >= 0,
        ;
        assert(len >= 0x8000_0000) by (nonlinear_arith)
            requires
                n < (len + 1) * (len + 1),
                n == l * s,
                l >= 0x4000_0000,
                s == 0x1_0000_0000,
                len >= 0,
        ;
        assert(self.spec_length().raw == len);
        let q = self.exact_square();
        assert(n <= q < n + 3 * s) by (nonlinear_arith)
            requires
                n == (sx + sy + sz) * s,
                q == self.x.raw * self.x.raw + self.y.raw * self.y.raw + self.z.raw * self.z.raw,
                sx * s <= self.x.raw * self.x.raw < sx * s + s,
                sy * s <= self.y.raw * self.y.raw < sy * s + s,
                sz * s <= self.z.raw * self.z.raw < sz * s + s,
        ;
        assert(q < (len + 4) * (len + 4)) by (nonlinear_arith)
            requires
                q < n + 3 * s,
                n < (len + 1) * (len + 1),
                len >= 0x8000_0000,
                s == 0x1_0000_0000,
        ;
    }

    /// A component of a leveled vector, divided by the length of the
    /// vector, is a quotient of magnitude up to one and seven units.
    pub proof fn lemma_leveled_quotient(self, c: Fixed)
        requires
            self.is_leveled(),
            c == self.x || c == self.y || c == self.z,
        ensures
            c.spec_div(self.spec_length()).raw == (c.raw * ONE_RAW) / (self.spec_length().raw as int),
            -ONE_RAW - 7 <= c.spec_div(self.spec_length()).raw < ONE_RAW + 7,
            magnitude(c) >= 0x8000_0000 ==> magnitude(c.spec_div(self.spec_length())) >= 0x4000_0000,
    {
        self.lemma_leveled_length();
        let s = ONE_RAW as int;
        let len = self.spec_length().raw as int;
        let w = c.raw as int;
        let q = self.exact_square();
        assert(w * w <= q) by (nonlinear_arith)
            requires
                q == self.x.raw * self.x.raw + self.y.raw * self.y.raw + self.z.raw * self.z.raw,
                w == self.x.raw || w == self.y.raw || w == self.z.raw,
        ;
        assert(-(len + 4) < w < len + 4) by (nonlinear_arith)
            requires
                w * w <= q,
                q < (len + 4) * (len + 4),
                len >= 0,
        ;
        assert((-s - 7) * len <= w * s < (s + 7) * len) by (nonlinear_arith)
            requires
                -(len + 4) < w < len + 4,
                len >= 0x8000_0000,
                s == 0x1_0000_0000,
        ;
        lemma_quotient_bounds(w * s, len, -s - 7, s + 7);
        if w >= 0x8000_0000 {
            assert(0x4000_0000 * len <= w * s) by (nonlinear_arith)
                requires
                    w >= 0x8000_0000,
                    len < 0x2_0000_0000,
                    len >= 0,
                    s == 0x1_0000_0000,
            ;
            lemma_quotient_bounds(w * s, len, 0x4000_0000, s + 7);
        }
        if w <= -0x8000_0000 {
            assert(w * s < (-0x4000_0000 + 1) * len) by (nonlinear_arith)
                requires
                    w <= -0x8000_0000,
                    len < 0x2_0000_0000,
                    len >= 0x8000_0000,
                    s == 0x1_0000_0000,
            ;
            lemma_quotient_bounds(w * s, len, -s - 7, -0x4000_0000 + 1);
        }
    }

    /// Scaling to unit length is accurate for every vector but the zero
    /// vector, however short or long.  The length by which the leveled
    /// vector is divided is its exact length to four units in the last
    /// place, of a length of one half at least; each component of the result
    /// is the quotient to seven units in the last place; and the result is
    /// never near zero.
    pub proof fn lemma_unit_vector_accurate(self)
        requires
            self.spec_largest() > 0,
        ensures
            self.spec_leveled().is_leveled(),
            0x8000_0000 <= self.spec_leveled().spec_length().raw < 0x2_0000_0000,
            self.spec_leveled().spec_length().raw * self.spec_leveled().spec_length().raw
                <= self.spec_leveled().exact_square(),
            self.spec_leveled().exact_square() < (self.spec_leveled().spec_length().raw + 4) * (
            self.spec_leveled().spec_length().raw + 4),
            close_to_quotient(
                self.spec_unit_vector().x,
                self.spec_leveled().x,
                self.spec_leveled().spec_length(),
            ),
            close_to_quotient(
                self.spec_unit_vector().y,
                self.spec_leveled().y,
                self.spec_leveled().spec_length(),
            ),
            close_to_quotient(
                self.spec_unit_vector().z,
                self.spec_leveled().z,
                self.spec_leveled().spec_length(),
            ),
            self.spec_unit_vector().spec_largest() >= 0x4000_0000,
            !self.spec_unit_vector().spec_near_zero(),
    {
        self.lemma_leveled_bounds();
        let w = self.spec_leveled();
        w.lemma_leveled_length();
        w.lemma_leveled_quotient(w.x);
        w.lemma_leveled_quotient(w.y);
        w.lemma_leveled_quotient(w.z);
    }

    /// A unit vector has every component between -1 and 1.
    pub proof fn lemma_unit_vector_within_unit(self)
        ensures
            self.spec_unit_vector().within_unit(),
    {
    }
}

impl Default for Vec3 {
    /// The zero vector.
    fn default() -> (r: Vec3)
        ensures
            r == Vec3::spec_zero(),
    {
        Vec3::zero()
    }
}

} // verus!
