//! Saturating fixed-point numbers with 32 fractional bits.
//!
//! A `Fixed` stands for the rational `raw / 2^32`.  Every operation is total:
//! results that leave the range of `i64` stick at the nearest limit, and the
//! two limits double as the infinities of interval arithmetic.
//!
//! Range and tolerance.  The numbers reach from `-2^31` to just below
//! `2^31` in steps of `2^-32`.  Sums and differences inside the range are
//! exact.  A product, a quotient and a square root inside the range are the
//! exact result rounded down to the next step, so each falls short by less
//! than `2^-32`.  A result outside the range is replaced by the nearest
//! limit without further notice: code that squares a distance stays exact
//! to the step only while the distance is below `2^15.5`, about 46 000.

use vstd::prelude::*;
use vstd::arithmetic::div_mod::lemma_fundamental_div_mod;
use vstd::arithmetic::div_mod::lemma_fundamental_div_mod_converse;

verus! {

/// Raw representation of the number one.
pub const ONE_RAW: i64 = 0x1_0000_0000;

/// Nearest value of `x` inside the range of `i64`.
pub open spec fn saturate(x: int) -> int {
    if x < i64::MIN {
        i64::MIN as int
    } else if x > i64::MAX {
        i64::MAX as int
    } else {
        x
    }
}

/// `n / d` rounded toward negative infinity.  A zero divisor yields the limit
/// of `i64` that carries the sign of `n`, and zero for `0 / 0`.
pub open spec fn floor_quotient(n: int, d: int) -> int {
    if d > 0 {
        n / d
    } else if d < 0 {
        (-n) / (-d)
    } else if n > 0 {
        i64::MAX as int
    } else if n < 0 {
        i64::MIN as int
    } else {
        0
    }
}

/// `r` is the integer square root of `n`.
pub open spec fn is_floor_sqrt(n: int, r: int) -> bool {
    0 <= r && r * r <= n < (r + 1) * (r + 1)
}

/// The integer square root of `n`, for `n >= 0`.
pub open spec fn floor_sqrt(n: int) -> int {
    choose|r: int| is_floor_sqrt(n, r)
}

/// At most one number is the integer square root of `n`.
pub proof fn lemma_floor_sqrt_unique(n: int, r: int, s: int)
    requires
        is_floor_sqrt(n, r),
        is_floor_sqrt(n, s),
    ensures
        r == s,
{
    if r < s {
        assert((r + 1) * (r + 1) <= s * s) by (nonlinear_arith)
            requires
                0 <= r,
                r + 1 <= s,
        ;
    } else if s < r {
        assert((s + 1) * (s + 1) <= r * r) by (nonlinear_arith)
            requires
                0 <= s,
                s + 1 <= r,
        ;
    }
}

fn saturate_i128(x: i128) -> (r: i64)
    ensures
        r == saturate(x as int),
{
    if x < i64::MIN as i128 {
        i64::MIN
    } else if x > i64::MAX as i128 {
        i64::MAX
    } else {
        x as i64
    }
}

/// Floor division by a positive divisor, which never grows the magnitude.
pub(crate) fn floor_div(n: i128, d: i128) -> (q: i128)
    requires
        0 < d <= 0x1_0000_0000_0000_0000,
        -0x4000_0000_0000_0000_0000_0000_0000_0000 <= n <= 0x4000_0000_0000_0000_0000_0000_0000_0000,
    ensures
        q == n as int / d as int,
        n >= 0 ==> 0 <= q <= n,
        n < 0 ==> n <= q < 0,
        d * q <= n < d * q + d,
{
    if n >= 0 {
        let q: i128 = n / d;
        proof {
            lemma_fundamental_div_mod(n as int, d as int);
            let r = n as int % d as int;
            assert(0 <= q <= n) by (nonlinear_arith)
                requires
                    n == d * q + r,
                    0 <= r < d,
                    n >= 0,
                    d >= 1,
            ;
        }
        q
    } else {
        let m: i128 = -n;
        let up: i128 = (m + (d - 1)) / d;
        proof {
            let t = m + d - 1;
            lemma_fundamental_div_mod(t as int, d as int);
            let r = t as int % d as int;
            assert(d * up == up * d) by (nonlinear_arith);
            assert((-up) * d == -(up * d)) by (nonlinear_arith);
            assert(n as int == (-up) * d + (d - 1 - r));
            lemma_fundamental_div_mod_converse(n as int, d as int, -(up as int), d - 1 - r);
            assert(1 <= up <= m) by (nonlinear_arith)
                requires
                    t == up * d + r,
                    0 <= r < d,
                    t == m + d - 1,
                    m >= 1,
                    d >= 1,
            ;
            assert(d * (-up) == -(up * d)) by (nonlinear_arith);
        }
        -up
    }
}

/// Integer square root by bisection.
fn isqrt(n: u128) -> (r: u64)
    requires
        n < 0x1_0000_0000_0000_0000_0000_0000,
    ensures
        is_floor_sqrt(n as int, r as int),
        r as int == floor_sqrt(n as int),
        r < 0x1_0000_0000_0000,
{
    let mut lo: u128 = 0;
    let mut hi: u128 = 0x1_0000_0000_0000;
    assert(hi * hi == 0x1_0000_0000_0000_0000_0000_0000) by (nonlinear_arith)
        requires
            hi == 0x1_0000_0000_0000,
    ;
    while hi - lo > 1
        invariant
            lo < hi <= 0x1_0000_0000_0000,
            lo * lo <= n < hi * hi,
        decreases hi - lo,
    {
        let mid: u128 = lo + (hi - lo) / 2;
        assert(mid * mid < 0x1_0000_0000_0000_0000_0000_0000) by (nonlinear_arith)
            requires
                mid < 0x1_0000_0000_0000,
        ;
        if mid * mid <= n {
            lo = mid;
        } else {
            hi = mid;
        }
    }
    proof {
        assert(is_floor_sqrt(n as int, lo as int));
        lemma_floor_sqrt_unique(n as int, lo as int, floor_sqrt(n as int));
    }
    lo as u64
}

/// A fixed-point number; `raw` counts units of `2^-32`.
#[derive(Clone, Copy, Debug, PartialEq, Eq, Structural)]
pub struct Fixed {
    pub raw: i64,
}

impl Fixed {
    /// Sum, saturated.
    pub open spec fn spec_add(self, other: Fixed) -> Fixed {
        Fixed { raw: saturate(self.raw + other.raw) as i64 }
    }

    /// Difference, saturated.
    pub open spec fn spec_sub(self, other: Fixed) -> Fixed {
        Fixed { raw: saturate(self.raw - other.raw) as i64 }
    }

    /// Product rounded toward negative infinity, saturated.
    pub open spec fn spec_mul(self, other: Fixed) -> Fixed {
        Fixed { raw: saturate((self.raw * other.raw) / (ONE_RAW as int)) as i64 }
    }

    /// Quotient rounded toward negative infinity, saturated; see
    /// [`floor_quotient`] for a zero divisor.
    pub open spec fn spec_div(self, other: Fixed) -> Fixed {
        Fixed { raw: saturate(floor_quotient(self.raw * ONE_RAW, other.raw as int)) as i64 }
    }

    /// Negation, saturated.
    pub open spec fn spec_neg(self) -> Fixed {
        Fixed { raw: saturate(-self.raw) as i64 }
    }

    /// Absolute value, saturated.
    pub open spec fn spec_abs(self) -> Fixed {
        if self.raw < 0 {
            self.spec_neg()
        } else {
            self
        }
    }

    /// The smaller of two numbers.
    pub open spec fn spec_min(self, other: Fixed) -> Fixed {
        if self.raw < other.raw {
            self
        } else {
            other
        }
    }

    /// The larger of two numbers.
    pub open spec fn spec_max(self, other: Fixed) -> Fixed {
        if self.raw < other.raw {
            other
        } else {
            self
        }
    }

    /// Square root rounded toward zero; zero for a negative number.
    pub open spec fn spec_sqrt(self) -> Fixed {
        if self.raw <= 0 {
            Fixed { raw: 0 }
        } else {
            Fixed { raw: floor_sqrt(self.raw * ONE_RAW) as i64 }
        }
    }

    /// `self` restricted to the interval from `lo` to `hi`.
    pub open spec fn spec_clamp(self, lo: Fixed, hi: Fixed) -> Fixed {
        if self.raw < lo.raw {
            lo
        } else if self.raw > hi.raw {
            hi
        } else {
            self
        }
    }

    /// The whole number `n`, saturated.
    pub open spec fn spec_from_int(n: i64) -> Fixed {
        Fixed { raw: saturate(n * ONE_RAW) as i64 }
    }

    /// The fraction `num / den`.
    pub open spec fn spec_from_ratio(num: i64, den: i64) -> Fixed {
        Fixed { raw: saturate(floor_quotient(num * ONE_RAW, den as int)) as i64 }
    }

    pub fn from_raw(raw: i64) -> (r: Fixed)
        ensures
            r.raw == raw,
    {
        Fixed { raw }
    }

    pub fn to_raw(self) -> (r: i64)
        ensures
            r == self.raw,
    {
        self.raw
    }

    pub fn zero() -> (r: Fixed)
        ensures
            r.raw == 0,
    {
        Fixed { raw: 0 }
    }

    pub fn one() -> (r: Fixed)
        ensures
            r.raw == ONE_RAW,
    {
        Fixed { raw: ONE_RAW }
    }

    /// The largest number, which also serves as positive infinity.
    pub fn max_value() -> (r: Fixed)
        ensures
            r.raw == i64::MAX,
    {
        Fixed { raw: i64::MAX }
    }

    /// The smallest number, which also serves as negative infinity.
    pub fn min_value() -> (r: Fixed)
        ensures
            r.raw == i64::MIN,
    {
        Fixed { raw: i64::MIN }
    }

    pub fn from_int(n: i64) -> (r: Fixed)
        ensures
            r == Fixed::spec_from_int(n),
    {
        let wide: i128 = n as i128 * 0x1_0000_0000;
        Fixed { raw: saturate_i128(wide) }
    }

    pub fn from_ratio(num: i64, den: i64) -> (r: Fixed)
        ensures
            r == Fixed::spec_from_ratio(num, den),
    {
        Fixed { raw: num }.div(Fixed { raw: den })
    }

    pub fn add(self, other: Fixed) -> (r: Fixed)
        ensures
            r == self.spec_add(other),
    {
        Fixed { raw: saturate_i128(self.raw as i128 + other.raw as i128) }
    }

    pub fn sub(self, other: Fixed) -> (r: Fixed)
        ensures
            r == self.spec_sub(other),
    {
        Fixed { raw: saturate_i128(self.raw as i128 - other.raw as i128) }
    }

    pub fn mul(self, other: Fixed) -> (r: Fixed)
        ensures
            r == self.spec_mul(other),
    {
        let a: i128 = self.raw as i128;
        let b: i128 = other.raw as i128;
        assert(-0x4000_0000_0000_0000_0000_0000_0000_0000 <= a * b
            <= 0x4000_0000_0000_0000_0000_0000_0000_0000) by (nonlinear_arith)
            requires
                -0x8000_0000_0000_0000 <= a <= 0x7fff_ffff_ffff_ffff,
                -0x8000_0000_0000_0000 <= b <= 0x7fff_ffff_ffff_ffff,
        ;
        Fixed { raw: saturate_i128(floor_div(a * b, 0x1_0000_0000)) }
    }

    pub fn div(self, other: Fixed) -> (r: Fixed)
        ensures
            r == self.spec_div(other),
    {
        let n: i128 = self.raw as i128 * 0x1_0000_0000;
        let d: i128 = other.raw as i128;
        if d > 0 {
            Fixed { raw: saturate_i128(floor_div(n, d)) }
        } else if d < 0 {
            Fixed { raw: saturate_i128(floor_div(-n, -d)) }
        } else if n > 0 {
            Fixed { raw: i64::MAX }
        } else if n < 0 {
            Fixed { raw: i64::MIN }
        } else {
            Fixed { raw: 0 }
        }
    }

    pub fn neg(self) -> (r: Fixed)
        ensures
            r == self.spec_neg(),
    {
        Fixed { raw: saturate_i128(-(self.raw as i128)) }
    }

    pub fn abs(self) -> (r: Fixed)
        ensures
            r == self.spec_abs(),
    {
        if self.raw < 0 {
            self.neg()
        } else {
            self
        }
    }

    pub fn min(self, other: Fixed) -> (r: Fixed)
        ensures
            r == self.spec_min(other),
    {
        if self.raw < other.raw {
            self
        } else {
            other
        }
    }

    pub fn max(self, other: Fixed) -> (r: Fixed)
        ensures
            r == self.spec_max(other),
    {
        if self.raw < other.raw {
            other
        } else {
            self
        }
    }

    pub fn clamp(self, lo: Fixed, hi: Fixed) -> (r: Fixed)
        ensures
            r == self.spec_clamp(lo, hi),
    {
        if self.raw < lo.raw {
            lo
        } else if self.raw > hi.raw {
            hi
        } else {
            self
        }
    }

    pub fn sqrt(self) -> (r: Fixed)
        ensures
            r == self.spec_sqrt(),
            r.raw >= 0,
    {
        if self.raw <= 0 {
            Fixed { raw: 0 }
        } else {
            let n: u128 = self.raw as u128 * 0x1_0000_0000;
            Fixed { raw: isqrt(n) as i64 }
        }
    }

    pub fn lt(self, other: Fixed) -> (r: bool)
        ensures
            r == (self.raw < other.raw),
    {
        self.raw < other.raw
    }

    pub fn le(self, other: Fixed) -> (r: bool)
        ensures
            r == (self.raw <= other.raw),
    {
        self.raw <= other.raw
    }

    pub fn gt(self, other: Fixed) -> (r: bool)
        ensures
            r == (self.raw > other.raw),
    {
        self.raw > other.raw
    }

    pub fn ge(self, other: Fixed) -> (r: bool)
        ensures
            r == (self.raw >= other.raw),
    {
        self.raw >= other.raw
    }
}


/// Subtraction grows with its first argument.
pub proof fn lemma_sub_monotone(a: Fixed, b: Fixed, c: Fixed)
    requires
        a.raw <= b.raw,
    ensures
        a.spec_sub(c).raw <= b.spec_sub(c).raw,
{
}

/// Division by a positive number grows with the numerator; division by a
/// negative number falls with it.
pub proof fn lemma_div_monotone(a: Fixed, b: Fixed, d: Fixed)
    requires
        a.raw <= b.raw,
        d.raw != 0,
    ensures
        d.raw > 0 ==> a.spec_div(d).raw <= b.spec_div(d).raw,
        d.raw < 0 ==> a.spec_div(d).raw >= b.spec_div(d).raw,
{
    let x = a.raw * ONE_RAW;
    let y = b.raw * ONE_RAW;
    assert(x <= y);
    if d.raw > 0 {
        vstd::arithmetic::div_mod::lemma_div_is_ordered(x, y, d.raw as int);
    } else {
        vstd::arithmetic::div_mod::lemma_div_is_ordered(-y, -x, -d.raw as int);
    }
}


impl Fixed {
    /// Remainder of the division by a positive `m`, between zero and `m`;
    /// zero where `m` is not positive.
    pub open spec fn spec_rem(self, m: Fixed) -> Fixed {
        if m.raw > 0 {
            Fixed { raw: (self.raw as int % m.raw as int) as i64 }
        } else {
            Fixed { raw: 0 }
        }
    }

    pub fn rem(self, m: Fixed) -> (r: Fixed)
        ensures
            r == self.spec_rem(m),
    {
        if m.raw <= 0 {
            Fixed { raw: 0 }
        } else if self.raw >= 0 {
            Fixed { raw: self.raw % m.raw }
        } else {
            let back: i128 = (-(self.raw as i128)) % (m.raw as i128);
            proof {
                let n = self.raw as int;
                let d = m.raw as int;
                lemma_fundamental_div_mod(-n, d);
                let q = (-n) / d;
                assert(0 <= back < d) by (nonlinear_arith)
                    requires
                        back == (-n) % d,
                        d > 0,
                ;
                if back == 0 {
                    assert(n == (-q) * d + 0) by (nonlinear_arith)
                        requires
                            -n == d * q + 0,
                    ;
                    lemma_fundamental_div_mod_converse(n, d, -q, 0);
                } else {
                    assert(n == (-q - 1) * d + (d - back)) by (nonlinear_arith)
                        requires
                            -n == d * q + back,
                    ;
                    lemma_fundamental_div_mod_converse(n, d, -q - 1, d - back);
                }
            }
            if back == 0 {
                Fixed { raw: 0 }
            } else {
                Fixed { raw: (m.raw as i128 - back) as i64 }
            }
        }
    }
}

/// Products of a number with itself are never negative.
pub proof fn lemma_square_nonnegative(a: Fixed)
    ensures
        a.spec_mul(a).raw >= 0,
{
    assert(a.raw * a.raw >= 0) by (nonlinear_arith);
    assert((a.raw * a.raw) / (ONE_RAW as int) >= 0) by (nonlinear_arith)
        requires
            a.raw * a.raw >= 0,
            ONE_RAW == 0x1_0000_0000,
    ;
}

/// Division grows with the numerator where the divisor is not negative.
pub proof fn lemma_div_monotone_nonnegative(a: Fixed, b: Fixed, d: Fixed)
    requires
        a.raw <= b.raw,
        d.raw >= 0,
    ensures
        a.spec_div(d).raw <= b.spec_div(d).raw,
{
    if d.raw > 0 {
        lemma_div_monotone(a, b, d);
    } else {
        assert(a.raw * ONE_RAW <= b.raw * ONE_RAW);
    }
}

/// Every number from zero on has an integer square root.
pub proof fn lemma_floor_sqrt_exists(n: int)
    requires
        n >= 0,
    ensures
        is_floor_sqrt(n, floor_sqrt(n)),
    decreases n,
{
    if n == 0 {
        assert(is_floor_sqrt(0, 0));
    } else {
        lemma_floor_sqrt_exists(n - 1);
        let r = floor_sqrt(n - 1);
        if (r + 1) * (r + 1) <= n {
            assert((r + 2) * (r + 2) > n) by (nonlinear_arith)
                requires
                    n - 1 < (r + 1) * (r + 1),
                    r >= 0,
            ;
            assert(is_floor_sqrt(n, r + 1));
        } else {
            assert(r * r <= n) by (nonlinear_arith)
                requires
                    r * r <= n - 1,
            ;
            assert(is_floor_sqrt(n, r));
        }
    }
}

/// A square root is never negative.
pub proof fn lemma_sqrt_nonnegative(a: Fixed)
    ensures
        a.spec_sqrt().raw >= 0,
{
    if a.raw > 0 {
        let n = a.raw * ONE_RAW;
        lemma_floor_sqrt_exists(n);
        let r = floor_sqrt(n);
        if r >= 0x1_0000_0000_0000 {
            assert(r * r >= 0x1_0000_0000_0000_0000_0000_0000) by (nonlinear_arith)
                requires
                    r >= 0x1_0000_0000_0000,
            ;
        }
    }
}

/// Multiplication by a number that is not positive turns the order round.
pub proof fn lemma_mul_antitone(a: Fixed, b: Fixed, c: Fixed)
    requires
        a.raw <= b.raw,
        c.raw <= 0,
    ensures
        a.spec_mul(c).raw >= b.spec_mul(c).raw,
{
    assert(a.raw * c.raw >= b.raw * c.raw) by (nonlinear_arith)
        requires
            a.raw <= b.raw,
            c.raw <= 0,
    ;
    vstd::arithmetic::div_mod::lemma_div_is_ordered(
        b.raw * c.raw,
        a.raw * c.raw,
        ONE_RAW as int,
    );
}

/// The product of two numbers that are not positive is not negative.
pub proof fn lemma_mul_of_nonpositive(a: Fixed, b: Fixed)
    requires
        a.raw <= 0,
        b.raw <= 0,
    ensures
        a.spec_mul(b).raw >= 0,
{
    assert(a.raw * b.raw >= 0) by (nonlinear_arith)
        requires
            a.raw <= 0,
            b.raw <= 0,
    ;
    vstd::arithmetic::div_mod::lemma_div_is_ordered(0, a.raw * b.raw, ONE_RAW as int);
}

/// Over positive divisors, the quotient of a negative number grows with the
/// divisor, and stays negative.
pub proof fn lemma_negative_over_divisor(n: Fixed, d: Fixed, e: Fixed)
    requires
        n.raw < 0,
        0 < d.raw <= e.raw,
    ensures
        n.spec_div(d).raw <= n.spec_div(e).raw < 0,
{
    let x = n.raw * ONE_RAW;
    let q1 = x / (d.raw as int);
    let q2 = x / (e.raw as int);
    lemma_fundamental_div_mod(x, d.raw as int);
    lemma_fundamental_div_mod(x, e.raw as int);
    let r1 = x % (d.raw as int);
    let r2 = x % (e.raw as int);
    assert(0 <= r1 < d.raw && 0 <= r2 < e.raw) by (nonlinear_arith)
        requires
            r1 == x % (d.raw as int),
            r2 == x % (e.raw as int),
            0 < d.raw,
            0 < e.raw,
    ;
    assert(q2 < 0) by (nonlinear_arith)
        requires
            x == e.raw * q2 + r2,
            0 <= r2 < e.raw,
            x < 0,
    ;
    assert(q1 <= q2) by (nonlinear_arith)
        requires
            x == d.raw * q1 + r1,
            x == e.raw * q2 + r2,
            0 <= r1 < d.raw,
            0 <= r2 < e.raw,
            0 < d.raw <= e.raw,
            q2 < 0,
    ;
}

/// A product with a negated factor is at most the negated product.
pub proof fn lemma_mul_negated(a: Fixed, b: Fixed)
    requires
        b.raw > i64::MIN,
    ensures
        a.spec_mul(b.spec_neg()).raw <= -a.spec_mul(b).raw,
{
    let x = a.raw * b.raw;
    let s = ONE_RAW as int;
    assert(a.raw * (-b.raw) == -x) by (nonlinear_arith)
        requires
            x == a.raw * b.raw,
    ;
    lemma_fundamental_div_mod(x, s);
    let f = x / s;
    let r = x % s;
    if r == 0 {
        lemma_fundamental_div_mod_converse(-x, s, -f, 0);
    } else {
        lemma_fundamental_div_mod_converse(-x, s, -f - 1, s - r);
    }
}

/// A quotient by a positive divisor lies where the dividend lies between
/// the multiples of the divisor.
pub proof fn lemma_quotient_bounds(x: int, d: int, lo: int, hi: int)
    requires
        d > 0,
        lo * d <= x < hi * d,
    ensures
        lo <= x / d < hi,
{
    lemma_fundamental_div_mod(x, d);
    let q = x / d;
    let r = x % d;
    assert(0 <= r < d) by (nonlinear_arith)
        requires
            r == x % d,
            d > 0,
    ;
    assert(lo <= q < hi) by (nonlinear_arith)
        requires
            x == d * q + r,
            0 <= r < d,
            lo * d <= x < hi * d,
    ;
}

/// The square of a number of magnitude up to one is its exact square rounded
/// down, between zero and one.
pub proof fn lemma_small_square(a: Fixed)
    requires
        -ONE_RAW <= a.raw <= ONE_RAW,
    ensures
        0 <= a.spec_mul(a).raw <= ONE_RAW,
        a.spec_mul(a).raw * ONE_RAW <= a.raw * a.raw < a.spec_mul(a).raw * ONE_RAW + ONE_RAW,
{
    let x = a.raw as int;
    let s = ONE_RAW as int;
    assert(0 <= x * x <= s * s) by (nonlinear_arith)
        requires
            -s <= x <= s,
    ;
    lemma_fundamental_div_mod(x * x, s);
    lemma_quotient_bounds(x * x, s, 0, s + 1);
    let q = (x * x) / s;
    assert(q * s == s * q) by (nonlinear_arith);
}

} // verus!
