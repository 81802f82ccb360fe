//! Scaled-integer arithmetic: truncating division and remainder on signed
//! values, absolute value, magnitude bounds for products and quotients, and
//! an integer square root.

use vstd::prelude::*;
use vstd::arithmetic::div_mod::lemma_div_is_ordered;
use vstd::arithmetic::div_mod::lemma_div_nonincreasing;
use vstd::arithmetic::div_mod::lemma_div_pos_is_pos;

verus! {

/// Sub-units per whole unit: all lengths, angles (degrees), gains and
/// velocities are carried as multiples of 1/1000.
pub const SCALE: i64 = 1000;

pub open spec fn abs_sp(a: int) -> int {
    if a >= 0 { a } else { -a }
}

/// Division truncating toward zero, which is what the executable code
/// computes on signed operands.
pub open spec fn tdiv(a: int, b: int) -> int
    recommends
        b != 0,
{
    if b > 0 {
        if a >= 0 { a / b } else { -((-a) / b) }
    } else {
        if a >= 0 { -(a / (-b)) } else { (-a) / (-b) }
    }
}

/// Remainder truncating toward zero for a positive divisor: same sign as
/// `a`, magnitude below `b`.
pub open spec fn tmod(a: int, b: int) -> int
    recommends
        b > 0,
{
    if a >= 0 { a % b } else { -((-a) % b) }
}

/// Truncating division never grows a magnitude, and divides any bound on it.
pub proof fn lemma_tdiv_mag(a: int, b: int, c: int)
    requires
        b != 0,
        abs_sp(a) <= c,
    ensures
        abs_sp(tdiv(a, b)) <= c / abs_sp(b),
        abs_sp(tdiv(a, b)) <= c,
        c / abs_sp(b) <= c,
{
    let aa = abs_sp(a);
    let ab = abs_sp(b);
    lemma_div_pos_is_pos(aa, ab);
    lemma_div_is_ordered(aa, c, ab);
    lemma_div_pos_is_pos(c, ab);
    lemma_div_nonincreasing(c, ab);
    assert(abs_sp(tdiv(a, b)) == aa / ab);
}

/// A bound on each factor bounds the product.
pub proof fn lemma_mul_mag(a: int, b: int, ca: int, cb: int)
    requires
        abs_sp(a) <= ca,
        abs_sp(b) <= cb,
    ensures
        abs_sp(a * b) <= ca * cb,
{
    assert(abs_sp(a * b) <= ca * cb) by (nonlinear_arith)
        requires
            abs_sp(a) <= ca,
            abs_sp(b) <= cb,
    ;
}

pub fn abs_i64(a: i64) -> (r: i64)
    requires
        a > i64::MIN,
    ensures
        r == abs_sp(a as int),
{
    if a >= 0 { a } else { -a }
}

/// Truncating signed division (the machine's `/` on signed values).
pub fn div_fix(a: i64, b: i64) -> (r: i64)
    requires
        a > i64::MIN,
        b > i64::MIN,
        b != 0,
    ensures
        r == tdiv(a as int, b as int),
        abs_sp(r as int) <= abs_sp(a as int),
{
    proof {
        lemma_tdiv_mag(a as int, b as int, abs_sp(a as int));
    }
    if b > 0 {
        if a >= 0 { a / b } else { -((-a) / b) }
    } else {
        if a >= 0 { -(a / (-b)) } else { (-a) / (-b) }
    }
}

/// Truncating signed remainder for a positive divisor, matching `div_fix`.
pub fn rem_fix(a: i64, b: i64) -> (r: i64)
    requires
        a > i64::MIN,
        b > 0,
    ensures
        r == tmod(a as int, b as int),
        abs_sp(r as int) < b,
{
    if a >= 0 { a % b } else { -((-a) % b) }
}

pub open spec fn is_sqrt_floor(n: int, r: int) -> bool {
    0 <= r && r * r <= n && n < (r + 1) * (r + 1)
}

/// The rounded-down square root of a nonnegative integer.
pub open spec fn sqrt_floor(n: int) -> int
    recommends
        n >= 0,
{
    choose|r: int| is_sqrt_floor(n, r)
}

pub proof fn lemma_sqrt_floor_unique(n: int, r1: int, r2: int)
    requires
        is_sqrt_floor(n, r1),
        is_sqrt_floor(n, r2),
    ensures
        r1 == r2,
{
    if r1 < r2 {
        assert((r1 + 1) * (r1 + 1) <= r2 * r2) by (nonlinear_arith)
            requires
                0 <= r1,
                0 <= r2,
                r1 < r2,
        ;
    }
    if r2 < r1 {
        assert((r2 + 1) * (r2 + 1) <= r1 * r1) by (nonlinear_arith)
            requires
                0 <= r1,
                0 <= r2,
                r2 < r1,
        ;
    }
}

/// Integer square root by bisection.
pub fn isqrt(n: i64) -> (r: i64)
    requires
        0 <= n <= 8_900_000_000_000_000_000,
    ensures
        r == sqrt_floor(n as int),
        is_sqrt_floor(n as int, r as int),
{
    let mut lo: i64 = 0;
    let mut hi: i64 = 3_000_000_000;
    assert((n as int) < (hi as int) * (hi as int)) by (nonlinear_arith)
        requires
            n <= 8_900_000_000_000_000_000,
            hi == 3_000_000_000,
    ;
    while lo + 1 < hi
        invariant
            0 <= lo < hi <= 3_000_000_000,
            (lo as int) * (lo as int) <= n as int,
            (n as int) < (hi as int) * (hi as int),
            n <= 8_900_000_000_000_000_000,
        decreases hi - lo,
    {
        let mid: i64 = lo + (hi - lo) / 2;
        assert(lo < mid < hi);
        assert((mid as int) * (mid as int) < 9_100_000_000_000_000_000) by (nonlinear_arith)
            requires
                0 < mid < 3_000_000_000,
        ;
        if mid * mid <= n {
            lo = mid;
        } else {
            hi = mid;
        }
    }
    proof {
        assert(is_sqrt_floor(n as int, lo as int));
        lemma_sqrt_floor_unique(n as int, lo as int, sqrt_floor(n as int));
    }
    lo
}

} // verus!
