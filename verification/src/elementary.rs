//! Arctangent, arccosine and logarithm on [`Fixed`] numbers.
//!
//! None of the three has a closed form over the integers, so each is pinned
//! down by the recurrence that defines its digits: shift-and-add rotation for
//! the angle, repeated squaring for the logarithm.

use vstd::prelude::*;
use vstd::arithmetic::logarithm::log;
use vstd::arithmetic::logarithm::lemma_log0;
use vstd::arithmetic::logarithm::lemma_log_s;
use vstd::arithmetic::power2::pow2;
use vstd::arithmetic::power2::lemma_pow2_unfold;
use vstd::arithmetic::power2::lemma_pow2_pos;
use vstd::arithmetic::power2::lemma2_to64;
use vstd::arithmetic::power2::lemma2_to64_rest;
use vstd::arithmetic::power2::lemma_pow2_adds;
use vstd::arithmetic::power2::lemma_pow2_strictly_increases;
use crate::fixed::Fixed;
use crate::fixed::ONE_RAW;
use crate::fixed::floor_div;

verus! {

/// Raw representation of pi.
pub const PI_RAW: i64 = 13493037705;

/// Raw representation of pi / 2.
pub const HALF_PI_RAW: i64 = 6746518852;

/// Raw representation of 2 pi.
pub const TWO_PI_RAW: i64 = 26986075409;

/// Raw representation of the natural logarithm of two.
pub const LN2_RAW: i64 = 2977044472;

/// Raw representation of `arctan(2^-i)`.
pub open spec fn arctan_pow2(i: nat) -> int {
    if i == 0 {
        3373259426
    } else if i == 1 {
        1991351318
    } else if i == 2 {
        1052175346
    } else if i == 3 {
        534100635
    } else if i == 4 {
        268086748
    } else if i == 5 {
        134174063
    } else if i == 6 {
        67103403
    } else if i == 7 {
        33553749
    } else if i == 8 {
        16777131
    } else if i == 9 {
        8388597
    } else if i == 10 {
        4194303
    } else {
        ONE_RAW as int / pow2(i) as int
    }
}

/// Angle accumulated by rotation steps `i..32` that drive `y` toward zero,
/// starting from the vector `(x, y)` and the angle `z`.
pub open spec fn rotation_angle(x: int, y: int, z: int, i: nat) -> int
    decreases 32 - i,
{
    if i >= 32 {
        z
    } else {
        let p = pow2(i) as int;
        if y >= 0 {
            rotation_angle(x + y / p, y - x / p, z + arctan_pow2(i), i + 1)
        } else {
            rotation_angle(x - y / p, y + x / p, z - arctan_pow2(i), i + 1)
        }
    }
}

/// Angle of the vector `(x, y)` against the positive x axis, in radians
/// between -pi and pi; zero for the zero vector.
pub open spec fn spec_atan2(y: Fixed, x: Fixed) -> Fixed {
    if x.raw == 0 && y.raw == 0 {
        Fixed { raw: 0 }
    } else if x.raw >= 0 {
        Fixed {
            raw: rotation_angle(x.raw * 0x4000_0000, y.raw * 0x4000_0000, 0, 0) as i64,
        }
    } else if y.raw >= 0 {
        Fixed {
            raw: rotation_angle(
                y.raw * 0x4000_0000,
                -x.raw * 0x4000_0000,
                HALF_PI_RAW as int,
                0,
            ) as i64,
        }
    } else {
        Fixed {
            raw: rotation_angle(
                -y.raw * 0x4000_0000,
                x.raw * 0x4000_0000,
                -HALF_PI_RAW as int,
                0,
            ) as i64,
        }
    }
}

/// Angle between 0 and pi whose cosine is `c`, with `c` first brought into
/// the interval from -1 to 1.
pub open spec fn spec_acos(c: Fixed) -> Fixed {
    let one = Fixed { raw: ONE_RAW };
    let k = c.spec_clamp(one.spec_neg(), one);
    spec_atan2(one.spec_sub(k.spec_mul(k)).spec_sqrt(), k)
}

/// The first `bits` binary digits behind the point of `log2(m / 2^62)`, for
/// a mantissa `2^62 <= m < 2^63`.
pub open spec fn log2_fraction(m: int, bits: nat) -> int
    decreases bits,
{
    if bits == 0 {
        0
    } else {
        let sq = (m * m) / 0x4000_0000_0000_0000;
        if sq >= 0x8000_0000_0000_0000 {
            pow2((bits - 1) as nat) + log2_fraction(sq / 2, (bits - 1) as nat)
        } else {
            log2_fraction(sq, (bits - 1) as nat)
        }
    }
}

/// Binary logarithm of a positive number: the position of the leading bit,
/// then 32 digits from [`log2_fraction`].  The smallest number for `x <= 0`.
pub open spec fn spec_log2(x: Fixed) -> Fixed {
    if x.raw <= 0 {
        Fixed { raw: i64::MIN }
    } else {
        let k = log(2, x.raw as int);
        let m = x.raw * pow2((62 - k) as nat);
        Fixed { raw: ((k - 32) * ONE_RAW + log2_fraction(m, 32)) as i64 }
    }
}

/// Natural logarithm of a positive number: the binary logarithm times
/// `ln 2`.  The smallest number for `x <= 0`.
pub open spec fn spec_ln(x: Fixed) -> Fixed {
    if x.raw <= 0 {
        Fixed { raw: i64::MIN }
    } else {
        spec_log2(x).spec_mul(Fixed { raw: LN2_RAW })
    }
}

/// A number between two neighbouring powers of two has the smaller exponent
/// as its binary logarithm.
pub proof fn lemma_log2_between(n: int, k: nat)
    requires
        pow2(k) <= n < pow2(k + 1),
    ensures
        log(2, n) == k,
    decreases k,
{
    lemma2_to64();
    if k == 0 {
        lemma_log0(2, n);
    } else {
        lemma_pow2_unfold(k);
        lemma_pow2_unfold(k + 1);
        lemma_pow2_pos((k - 1) as nat);
        lemma_log_s(2, n);
        lemma_log2_between(n / 2, (k - 1) as nat);
    }
}

fn arctan_step(i: u32, p: i128) -> (r: i64)
    requires
        i < 32,
        p == pow2(i as nat),
    ensures
        r == arctan_pow2(i as nat),
        0 <= r <= 3373259426,
{
    proof {
        lemma2_to64();
    }
    if i == 0 {
        3373259426
    } else if i == 1 {
        1991351318
    } else if i == 2 {
        1052175346
    } else if i == 3 {
        534100635
    } else if i == 4 {
        268086748
    } else if i == 5 {
        134174063
    } else if i == 6 {
        67103403
    } else if i == 7 {
        33553749
    } else if i == 8 {
        16777131
    } else if i == 9 {
        8388597
    } else if i == 10 {
        4194303
    } else {
        let q: i128 = floor_div(0x1_0000_0000, p);
        proof {
            if i > 11 {
                lemma_pow2_strictly_increases(11, i as nat);
            }
            assert(q <= 0x20_0000) by (nonlinear_arith)
                requires
                    p * q <= 0x1_0000_0000,
                    p >= 2048,
                    q >= 0,
            ;
        }
        q as i64
    }
}

/// Angle of the vector `(x, y)` against the positive x axis.
pub fn atan2(y: Fixed, x: Fixed) -> (r: Fixed)
    ensures
        r == spec_atan2(y, x),
        -0x20_0000_0000 <= r.raw <= 0x20_0000_0000,
{
    if x.raw == 0 && y.raw == 0 {
        return Fixed::zero();
    }
    let xw: i128 = x.raw as i128;
    let yw: i128 = y.raw as i128;
    let mut cx: i128;
    let mut cy: i128;
    let mut z: i64;
    if xw >= 0 {
        cx = xw * 0x4000_0000;
        cy = yw * 0x4000_0000;
        z = 0;
    } else if yw >= 0 {
        cx = yw * 0x4000_0000;
        cy = -xw * 0x4000_0000;
        z = HALF_PI_RAW;
    } else {
        cx = -yw * 0x4000_0000;
        cy = xw * 0x4000_0000;
        z = -HALF_PI_RAW;
    }
    let ghost start = rotation_angle(cx as int, cy as int, z as int, 0);
    let mut i: u32 = 0;
    let mut p: i128 = 1;
    proof {
        lemma2_to64();
    }
    while i < 32
        invariant
            i <= 32,
            p == pow2(i as nat),
            1 <= p <= 0x1_0000_0000,
            -(0x2000_0000_0000_0000_0000_0000 * p) <= cx <= 0x2000_0000_0000_0000_0000_0000 * p,
            -(0x2000_0000_0000_0000_0000_0000 * p) <= cy <= 0x2000_0000_0000_0000_0000_0000 * p,
            -(6746518852 + i * 3373259426) <= z <= 6746518852 + i * 3373259426,
            rotation_angle(cx as int, cy as int, z as int, i as nat) == start,
        decreases 32 - i,
    {
        let dx: i128 = floor_div(cy, p);
        let dy: i128 = floor_div(cx, p);
        let a: i64 = arctan_step(i, p);
        if cy >= 0 {
            cx = cx + dx;
            cy = cy - dy;
            z = z + a;
        } else {
            cx = cx - dx;
            cy = cy + dy;
            z = z - a;
        }
        proof {
            lemma_pow2_unfold((i + 1) as nat);
            lemma2_to64();
            if i < 31 {
                lemma_pow2_strictly_increases((i + 1) as nat, 32);
            }
        }
        p = p * 2;
        i = i + 1;
    }
    Fixed { raw: z }
}

/// Angle between 0 and pi whose cosine is `c`.
pub fn acos(c: Fixed) -> (r: Fixed)
    ensures
        r == spec_acos(c),
{
    let one = Fixed::one();
    let k = c.clamp(one.neg(), one);
    atan2(one.sub(k.mul(k)).sqrt(), k)
}

/// Binary logarithm.
pub fn log2(x: Fixed) -> (r: Fixed)
    ensures
        r == spec_log2(x),
{
    if x.raw <= 0 {
        return Fixed::min_value();
    }
    let mut m: u128 = x.raw as u128;
    let mut k: u32 = 62;
    proof {
        lemma2_to64();
        assert(pow2(0) == 1);
        assert(m == x.raw * pow2(0)) by (nonlinear_arith)
            requires
                m == x.raw,
                pow2(0) == 1,
        ;
    }
    while m < 0x4000_0000_0000_0000
        invariant
            k <= 62,
            1 <= m < 0x8000_0000_0000_0000,
            m == x.raw * pow2((62 - k) as nat),
            x.raw > 0,
        decreases k,
    {
        proof {
            let e = (62 - k) as nat;
            lemma_pow2_pos(e);
            lemma2_to64();
            lemma2_to64_rest();
            if k == 0 {
                assert(m >= 0x4000_0000_0000_0000) by (nonlinear_arith)
                    requires
                        m == x.raw * pow2(62),
                        pow2(62) == 0x4000_0000_0000_0000,
                        x.raw >= 1,
                ;
            }
            lemma_pow2_unfold(e + 1);
            assert(2 * m == x.raw * pow2(e + 1)) by (nonlinear_arith)
                requires
                    m == x.raw * pow2(e),
                    pow2(e + 1) == 2 * pow2(e),
            ;
        }
        m = m * 2;
        k = k - 1;
    }
    proof {
        let e = (62 - k) as nat;
        lemma2_to64();
        lemma2_to64_rest();
        lemma_pow2_pos(e);
        lemma_pow2_pos(k as nat);
        lemma_pow2_adds(k as nat, e);
        lemma_pow2_unfold((k + 1) as nat);
        assert(pow2(k as nat) <= x.raw < 2 * pow2(k as nat)) by (nonlinear_arith)
            requires
                pow2(k as nat) * pow2(e) == 0x4000_0000_0000_0000,
                0x4000_0000_0000_0000 <= x.raw * pow2(e) < 0x8000_0000_0000_0000,
                pow2(e) > 0,
                pow2(k as nat) > 0,
        ;
        lemma_log2_between(x.raw as int, k as nat);
    }
    let ghost m0 = m as int;
    let mut acc: u64 = 0;
    let mut j: u32 = 0;
    while j < 32
        invariant
            j <= 32,
            0x4000_0000_0000_0000 <= m < 0x8000_0000_0000_0000,
            acc < pow2(j as nat),
            log2_fraction(m0, 32) == acc * pow2((32 - j) as nat) + log2_fraction(
                m as int,
                (32 - j) as nat,
            ),
        decreases 32 - j,
    {
        assert(0x1000_0000_0000_0000_0000_0000_0000_0000 <= m * m
            < 0x4000_0000_0000_0000_0000_0000_0000_0000) by (nonlinear_arith)
            requires
                0x4000_0000_0000_0000 <= m < 0x8000_0000_0000_0000,
        ;
        let sq: u128 = (m * m) / 0x4000_0000_0000_0000;
        let ghost rem = (32 - j) as nat;
        proof {
            lemma2_to64();
            lemma_pow2_unfold(rem);
            lemma_pow2_unfold((j + 1) as nat);
            lemma_pow2_pos((rem - 1) as nat);
            assert(acc * pow2(rem) == (2 * acc) * pow2((rem - 1) as nat)) by (nonlinear_arith)
                requires
                    pow2(rem) == 2 * pow2((rem - 1) as nat),
            ;
            assert((2 * acc + 1) * pow2((rem - 1) as nat) == (2 * acc) * pow2((rem - 1) as nat)
                + pow2((rem - 1) as nat)) by (nonlinear_arith);
        }
        if sq >= 0x8000_0000_0000_0000 {
            acc = 2 * acc + 1;
            m = sq / 2;
        } else {
            acc = 2 * acc;
            m = sq;
        }
        j = j + 1;
    }
    proof {
        lemma2_to64();
        assert(acc * pow2(0) == acc) by (nonlinear_arith)
            requires
                pow2(0) == 1,
        ;
    }
    let whole: i64 = (k as i64 - 32) * 0x1_0000_0000;
    Fixed { raw: whole + acc as i64 }
}

/// Natural logarithm.
pub fn ln(x: Fixed) -> (r: Fixed)
    ensures
        r == spec_ln(x),
{
    if x.raw <= 0 {
        Fixed::min_value()
    } else {
        log2(x).mul(Fixed { raw: LN2_RAW })
    }
}

/// The digits of a binary logarithm form a number below `2^bits`.
pub proof fn lemma_log2_fraction_bounds(m: int, bits: nat)
    ensures
        0 <= log2_fraction(m, bits) < pow2(bits),
    decreases bits,
{
    lemma_pow2_pos(bits);
    if bits > 0 {
        let sq = (m * m) / 0x4000_0000_0000_0000;
        lemma_pow2_unfold(bits);
        lemma_log2_fraction_bounds(sq / 2, (bits - 1) as nat);
        lemma_log2_fraction_bounds(sq, (bits - 1) as nat);
    }
}

/// The logarithm of a number between zero and one is negative.
pub proof fn lemma_ln_negative_below_one(x: Fixed)
    requires
        0 < x.raw < ONE_RAW,
    ensures
        spec_ln(x).raw < 0,
{
    lemma2_to64();
    let k = log(2, x.raw as int);
    vstd::arithmetic::logarithm::lemma_log_nonnegative(2, x.raw as int);
    vstd::arithmetic::logarithm::lemma_log_is_ordered(2, x.raw as int, 0xffff_ffff);
    lemma_log2_between(0xffff_ffff, 31);
    assert(0 <= k <= 31);
    let m = x.raw * pow2((62 - k) as nat);
    lemma_log2_fraction_bounds(m, 32);
    let l = (k - 32) * ONE_RAW + log2_fraction(m, 32);
    assert(-0x20_0000_0000 <= l <= -1);
    assert(spec_log2(x).raw == l);
    assert(l * LN2_RAW < 0) by (nonlinear_arith)
        requires
            l <= -1,
            LN2_RAW == 2977044472,
    ;
    vstd::arithmetic::div_mod::lemma_div_is_ordered(l * LN2_RAW, -1, ONE_RAW as int);
}

/// A number from one on lies between the power of two of its binary
/// logarithm and the next.
pub proof fn lemma_log2_bounds(n: int)
    requires
        n >= 1,
    ensures
        log(2, n) >= 0,
        pow2(log(2, n) as nat) <= n < pow2((log(2, n) + 1) as nat),
    decreases n,
{
    lemma2_to64();
    vstd::arithmetic::logarithm::lemma_log_nonnegative(2, n);
    if n < 2 {
        lemma_log0(2, n);
    } else {
        lemma_log_s(2, n);
        lemma_log2_bounds(n / 2);
        let k = log(2, n / 2);
        lemma_pow2_unfold((k + 1) as nat);
        lemma_pow2_unfold((k + 2) as nat);
    }
}

} // verus!
