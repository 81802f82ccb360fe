//! Trigonometry on angles held in milli-degrees, computed with rational
//! integer approximations: a sine over the full circle (exact at the axes,
//! within a fraction of a percent elsewhere), a cosine derived from it, and
//! an arctangent for bearings.

use vstd::prelude::*;
use vstd::arithmetic::div_mod::lemma_div_is_ordered;
use vstd::arithmetic::div_mod::lemma_div_pos_is_pos;
use vstd::arithmetic::div_mod::lemma_div_by_multiple;
use vstd::arithmetic::div_mod::lemma_div_of0;
use crate::fixed::abs_sp;
use crate::fixed::tdiv;
use crate::fixed::lemma_mul_mag;
use crate::fixed::abs_i64;
use crate::fixed::div_fix;

verus! {

/// Quarter, half and full turns, in milli-degrees.
pub const DEG45: i64 = 45_000;

pub const DEG90: i64 = 90_000;

pub const DEG180: i64 = 180_000;

pub const DEG360: i64 = 360_000;

/// Sine on [0, 180] degrees as a rational function of the angle,
/// scaled by 1000: 4 d (180 - d) / (40500 - d (180 - d)).
pub open spec fn sin_half_sp(x: int) -> int
    recommends
        0 <= x <= 180_000,
{
    let q = x * (180_000 - x);
    4000 * q / (40_500_000_000 - q)
}

/// Sine over the full circle, scaled by 1000.
pub open spec fn sin_mil_sp(x: int) -> int
    recommends
        0 <= x < 360_000,
{
    if x <= 180_000 { sin_half_sp(x) } else { -sin_half_sp(x - 180_000) }
}

/// Cosine over the full circle, scaled by 1000: the sine shifted a quarter
/// turn.
pub open spec fn cos_mil_sp(x: int) -> int
    recommends
        0 <= x < 360_000,
{
    let y = if x + 90_000 >= 360_000 { x + 90_000 - 360_000 } else { x + 90_000 };
    sin_mil_sp(y)
}

proof fn lemma_sin_half_range(x: int)
    requires
        0 <= x <= 180_000,
    ensures
        0 <= sin_half_sp(x) <= 1000,
        x == 0 ==> sin_half_sp(x) == 0,
        x == 90_000 ==> sin_half_sp(x) == 1000,
        x == 180_000 ==> sin_half_sp(x) == 0,
{
    assert(0 <= x * (180_000 - x) <= 8_100_000_000) by (nonlinear_arith)
        requires
            0 <= x <= 180_000,
    ;
    let q = x * (180_000 - x);
    let num = 4000 * q;
    let den = 40_500_000_000 - q;
    lemma_div_pos_is_pos(num, den);
    assert(num <= 1000 * den);
    lemma_div_is_ordered(num, 1000 * den, den);
    lemma_div_by_multiple(1000, den);
    if x == 0 || x == 180_000 {
        assert(q == 0);
        lemma_div_of0(den);
    }
    if x == 90_000 {
        assert(q == 8_100_000_000);
        assert(num == 1000 * den);
        lemma_div_by_multiple(1000, den);
    }
}

/// Sine of an angle in [0, 180] degrees (milli-degrees in, thousandths out).
fn sin_half(x: i64) -> (r: i64)
    requires
        0 <= x <= 180_000,
    ensures
        r == sin_half_sp(x as int),
        0 <= r <= 1000,
{
    proof {
        lemma_mul_mag(x as int, 180_000 - x as int, 180_000, 180_000);
        lemma_sin_half_range(x as int);
    }
    let q = x * (180_000 - x);
    (4000 * q) / (40_500_000_000 - q)
}

/// Sine of an angle in [0, 360) degrees.
pub fn sin_mil(x: i64) -> (r: i64)
    requires
        0 <= x < 360_000,
    ensures
        r == sin_mil_sp(x as int),
        -1000 <= r <= 1000,
        x == 0 ==> r == 0,
        x == 90_000 ==> r == 1000,
        x == 180_000 ==> r == 0,
        x == 270_000 ==> r == -1000,
{
    proof {
        if x <= 180_000 {
            lemma_sin_half_range(x as int);
        } else {
            lemma_sin_half_range(x as int - 180_000);
        }
    }
    if x <= 180_000 { sin_half(x) } else { -sin_half(x - 180_000) }
}

/// Cosine of an angle in [0, 360) degrees.
pub fn cos_mil(x: i64) -> (r: i64)
    requires
        0 <= x < 360_000,
    ensures
        r == cos_mil_sp(x as int),
        -1000 <= r <= 1000,
        x == 0 ==> r == 1000,
        x == 90_000 ==> r == 0,
        x == 180_000 ==> r == -1000,
        0 <= x <= 90_000 ==> 0 <= r,
{
    let y = if x + 90_000 >= 360_000 { x + 90_000 - 360_000 } else { x + 90_000 };
    proof {
        if 0 <= x <= 90_000 {
            lemma_sin_half_range(x as int + 90_000);
        }
    }
    sin_mil(y)
}

/// Arctangent of t/1000 for t in [0, 1000], in milli-degrees:
/// 45 t plus a small symmetric correction.
pub open spec fn atan_unit_sp(t: int) -> int
    recommends
        0 <= t <= 1000,
{
    45 * t + 15_600 * (t * (1000 - t)) / 1_000_000
}

proof fn lemma_atan_unit_range(t: int)
    requires
        0 <= t <= 1000,
    ensures
        0 <= atan_unit_sp(t) <= 45_000,
        t == 0 ==> atan_unit_sp(t) == 0,
        t == 1000 ==> atan_unit_sp(t) == 45_000,
{
    assert(0 <= t * (1000 - t) <= 250_000) by (nonlinear_arith)
        requires
            0 <= t <= 1000,
    ;
    let q = t * (1000 - t);
    let num = 15_600 * q;
    lemma_div_pos_is_pos(num, 1_000_000);
    assert(15_600 * (t * (1000 - t)) <= 1_000_000 * (45 * (1000 - t))) by (nonlinear_arith)
        requires
            0 <= t <= 1000,
    ;
    lemma_div_is_ordered(num, 1_000_000 * (45 * (1000 - t)), 1_000_000);
    lemma_div_multiples_vanish_45(45 * (1000 - t));
    if t == 0 || t == 1000 {
        assert(q == 0);
        lemma_div_of0(1_000_000);
    }
}

proof fn lemma_div_multiples_vanish_45(b: int)
    requires
        0 <= b,
    ensures
        (1_000_000 * b) / 1_000_000 == b,
{
    vstd::arithmetic::div_mod::lemma_div_multiples_vanish(b, 1_000_000);
}

/// Arctangent of t/1000 for t in [0, 1000] (milli-degrees, in [0, 45]
/// degrees).
fn atan_unit(t: i64) -> (r: i64)
    requires
        0 <= t <= 1000,
    ensures
        r == atan_unit_sp(t as int),
        0 <= r <= 45_000,
{
    proof {
        lemma_atan_unit_range(t as int);
    }
    45 * t + (15_600 * (t * (1000 - t))) / 1_000_000
}

/// Magnitude of the arctangent of ay/ax, both nonnegative, in milli-degrees
/// in [0, 90] degrees; zero when both are zero.
pub open spec fn atan2_mag_sp(ay: int, ax: int) -> int
    recommends
        0 <= ay,
        0 <= ax,
{
    if ax == 0 && ay == 0 {
        0
    } else if ay <= ax {
        atan_unit_sp(tdiv(ay * 1000, ax))
    } else {
        90_000 - atan_unit_sp(tdiv(ax * 1000, ay))
    }
}

/// Signed arctangent of dy/dx over the full plane, in milli-degrees in
/// [-180, 180] degrees.
pub open spec fn atan2_sp(dy: int, dx: int) -> int {
    let base = atan2_mag_sp(abs_sp(dy), abs_sp(dx));
    if dx >= 0 {
        if dy >= 0 { base } else { -base }
    } else {
        if dy >= 0 { 180_000 - base } else { -(180_000 - base) }
    }
}

proof fn lemma_ratio_unit(ay: int, ax: int)
    requires
        0 <= ay <= ax,
        0 < ax,
    ensures
        0 <= tdiv(ay * 1000, ax) <= 1000,
{
    assert(ay * 1000 <= ax * 1000) by (nonlinear_arith)
        requires
            ay <= ax,
    ;
    lemma_div_pos_is_pos(ay * 1000, ax);
    lemma_div_is_ordered(ay * 1000, ax * 1000, ax);
    assert(ax * 1000 == 1000 * ax);
    vstd::arithmetic::div_mod::lemma_div_multiples_vanish(1000, ax);
    assert(tdiv(ay * 1000, ax) == ay * 1000 / ax);
}

/// Signed arctangent in milli-degrees. The axes are exact; elsewhere the
/// result is the polynomial approximation `atan2_sp`.
pub fn atan2_mil(dy: i64, dx: i64) -> (r: i64)
    requires
        abs_sp(dy as int) <= 2_100_000_000,
        abs_sp(dx as int) <= 2_100_000_000,
    ensures
        r == atan2_sp(dy as int, dx as int),
        -180_000 <= r <= 180_000,
        dx == 0 && dy > 0 ==> r == 90_000,
        dx == 0 && dy < 0 ==> r == -90_000,
        dy == 0 && dx > 0 ==> r == 0,
        dy == 0 && dx < 0 ==> r == 180_000,
        dy == 0 && dx == 0 ==> r == 0,
{
    let ay = abs_i64(dy);
    let ax = abs_i64(dx);
    let base: i64 = if ax == 0 && ay == 0 {
        0
    } else if ay <= ax {
        proof {
            lemma_ratio_unit(ay as int, ax as int);
            lemma_mul_mag(ay as int, 1000, 2_100_000_000, 1000);
        }
        atan_unit(div_fix(ay * 1000, ax))
    } else {
        proof {
            lemma_ratio_unit(ax as int, ay as int);
            lemma_mul_mag(ax as int, 1000, 2_100_000_000, 1000);
        }
        90_000 - atan_unit(div_fix(ax * 1000, ay))
    };
    proof {
        if ay == 0 && ax > 0 {
            lemma_div_of0(ax as int);
            lemma_atan_unit_range(0);
        }
        if ax == 0 && ay > 0 {
            lemma_div_of0(ay as int);
            lemma_atan_unit_range(0);
        }
        assert(0 <= base <= 90_000);
    }
    if dx >= 0 {
        if dy >= 0 { base } else { -base }
    } else {
        if dy >= 0 { 180_000 - base } else { -(180_000 - base) }
    }
}

} // verus!
