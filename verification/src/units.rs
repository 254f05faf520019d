//! The library's number system: whole billionths.
//!
//! Lengths are nanometres, times nanoseconds, angles nanoradians, speeds nanometres or
//! nanoradians per second. Every threshold and gain of the rules is a whole number of
//! billionths, so decisions compare whole numbers and never round; a product of two
//! quantities is floored to a billionth. A caller that holds seconds, metres and radians
//! multiplies by [`NANO`] on the way in and divides on the way out.

use vstd::prelude::*;

verus! {

/// One unit (a second, a metre, a radian) in billionths.
pub const NANO: i64 = 1_000_000_000;

/// Half a turn in nanoradians. A turn is exactly four quarter turns in these units.
pub const PI: i64 = 3_141_592_654;

pub const TAU: i64 = 6_283_185_308;

pub const FRAC_PI_2: i64 = 1_570_796_327;

/// `v` held between `lo` and `hi`.
pub open spec fn held(v: int, lo: int, hi: int) -> int {
    if v < lo {
        lo
    } else if v > hi {
        hi
    } else {
        v
    }
}

/// The distance of `v` from zero.
pub open spec fn magnitude(v: int) -> int {
    if v < 0 {
        -v
    } else {
        v
    }
}

/// `a / b` to the nearest whole number, halves away from zero.
pub open spec fn rounded(a: int, b: int) -> int {
    if a >= 0 {
        (2 * a + b) / (2 * b)
    } else {
        -((2 * -a + b) / (2 * b))
    }
}

/// The heading in `[-PI, PI)` that differs from `a` by whole turns.
pub open spec fn wrapped(a: int) -> int {
    (a + PI) % (TAU as int) - PI
}

pub fn hold(v: i128, lo: i64, hi: i64) -> (r: i64)
    requires
        lo <= hi,
    ensures
        r == held(v as int, lo as int, hi as int),
{
    if v < lo as i128 {
        lo
    } else if v > hi as i128 {
        hi
    } else {
        v as i64
    }
}

/// Floor division by a positive divisor.
pub fn floor_div(a: i128, b: i128) -> (q: i128)
    requires
        b > 0,
    ensures
        q == a as int / b as int,
{
    if a >= 0 {
        a / b
    } else {
        let up: i128 = -(a + 1);
        let q: i128 = -(up / b) - 1;
        proof {
            let (x, y) = (a as int, b as int);
            let u = -(x + 1);
            assert(x / y == -(u / y) - 1) by (nonlinear_arith)
                requires
                    y > 0,
                    x < 0,
                    u == -(x + 1),
            ;
        }
        q
    }
}

/// `a / b` to the nearest whole number, halves away from zero; `b` positive.
pub fn round_div(a: i128, b: i128) -> (q: i128)
    requires
        0 < b <= 0x1_0000_0000_0000_0000,
        -0x1000_0000_0000_0000_0000_0000_0000_0000 <= a <= 0x1000_0000_0000_0000_0000_0000_0000_0000,
    ensures
        q == rounded(a as int, b as int),
{
    if a >= 0 {
        (2 * a + b) / (2 * b)
    } else {
        -((2 * (-a) + b) / (2 * b))
    }
}

/// A whole number held to what a grid coordinate can be.
pub open spec fn coordinate(v: int) -> int {
    held(v, i32::MIN as int, i32::MAX as int)
}

pub fn to_coordinate(v: i128) -> (c: i32)
    ensures
        c == coordinate(v as int),
{
    if v < i32::MIN as i128 {
        i32::MIN
    } else if v > i32::MAX as i128 {
        i32::MAX
    } else {
        v as i32
    }
}

/// An angle brought into `[-PI, PI)`.
pub fn wrap(a: i64) -> (r: i64)
    ensures
        r == wrapped(a as int),
        -PI <= r < PI,
{
    wrap_wide(a as i128)
}

/// [`wrap`] for a sum of angles that may not fit one.
pub fn wrap_wide(a: i128) -> (r: i64)
    requires
        -0x1000_0000_0000_0000_0000_0000_0000_0000 <= a <= 0x1000_0000_0000_0000_0000_0000_0000_0000,
    ensures
        r == wrapped(a as int),
        -PI <= r < PI,
{
    let lifted: i128 = a + PI as i128;
    let turns: i128 = floor_div(lifted, TAU as i128);
    proof {
        vstd::arithmetic::div_mod::lemma_fundamental_div_mod(lifted as int, TAU as int);
    }
    (lifted - turns * TAU as i128 - PI as i128) as i64
}

/// Wrapping takes off whole turns and nothing else, and wrapping again changes nothing.
pub proof fn law_wrap_takes_whole_turns(a: int)
    ensures
        -PI <= wrapped(a) < PI,
        (a - wrapped(a)) % (TAU as int) == 0,
        wrapped(wrapped(a)) == wrapped(a),
{
    let t = TAU as int;
    vstd::arithmetic::div_mod::lemma_fundamental_div_mod(a + PI, t);
    assert(a - wrapped(a) == t * ((a + PI) / t));
    vstd::arithmetic::div_mod::lemma_mod_multiples_basic((a + PI) / t, t);
    vstd::arithmetic::mul::lemma_mul_is_commutative(t, (a + PI) / t);
}

/// Whether `(dx, dy)` is at least `r` long.
pub open spec fn reaches(dx: int, dy: int, r: int) -> bool {
    dx * dx + dy * dy >= r * r
}

pub fn is_long(dx: i128, dy: i128, r: i64) -> (b: bool)
    requires
        0 <= r <= NANO,
    ensures
        b == reaches(dx as int, dy as int, r as int),
{
    let wide: i128 = r as i128;
    proof {
        lemma_leg(dx as int, r as int);
        lemma_leg(dy as int, r as int);
    }
    if dx >= wide || dx <= -wide || dy >= wide || dy <= -wide {
        true
    } else {
        dx * dx + dy * dy >= wide * wide
    }
}

/// One leg as long as `r` is enough; two shorter ones have small squares.
proof fn lemma_leg(d: int, r: int)
    requires
        0 <= r <= NANO,
    ensures
        d * d >= 0,
        0 <= r * r <= 1_000_000_000_000_000_000,
        d >= r || d <= -r ==> d * d >= r * r,
        -r < d < r ==> d * d <= 1_000_000_000_000_000_000,
{
    assert(d * d >= 0) by (nonlinear_arith);
    assert(0 <= r * r <= 1_000_000_000_000_000_000) by (nonlinear_arith)
        requires
            0 <= r <= 1_000_000_000,
    ;
    assert(d >= r || d <= -r ==> d * d >= r * r) by (nonlinear_arith)
        requires
            0 <= r,
    ;
    assert(-r < d < r ==> d * d <= 1_000_000_000_000_000_000) by (nonlinear_arith)
        requires
            0 <= r <= 1_000_000_000,
    ;
}

/// A whole number held to what 64 bits hold.
pub open spec fn fitted(v: int) -> int {
    held(v, i64::MIN as int, i64::MAX as int)
}

pub fn fit(v: i128) -> (r: i64)
    ensures
        r == fitted(v as int),
{
    hold(v, i64::MIN, i64::MAX)
}

} // verus!
