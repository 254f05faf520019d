//! An area in double precision: a count of cells times the width of a cell, twice, each product
//! rounded to the 53 binary digits a double keeps.

use vstd::arithmetic::div_mod::{
    lemma_div_denominator, lemma_fundamental_div_mod, lemma_fundamental_div_mod_converse,
};
use vstd::arithmetic::power2::{
    lemma2_to64, lemma2_to64_rest, lemma_pow2_adds, lemma_pow2_pos, lemma_pow2_strictly_increases,
    lemma_pow2_unfold, pow2,
};
use vstd::prelude::*;

use crate::text::{decimal, in_decimal, to_even};

verus! {

/// The least number with more binary digits than a double keeps.
pub const TOO_WIDE: u64 = 0x20_0000_0000_0000;

/// The double nearest to a tenth, in units of `1 / pow2(55)`.
pub const TENTH: u64 = 3_602_879_701_896_397;

/// How many of the last binary digits of `v` a double has no room for.
pub open spec fn lost(v: nat) -> nat
    decreases v,
{
    if v < TOO_WIDE {
        0
    } else {
        1 + lost(v / 2)
    }
}

/// The digits of `v` that a double keeps, rounded to the nearest, halves to the even one.
pub open spec fn kept(v: nat) -> nat {
    to_even(v as int, pow2(lost(v)) as int) as nat
}

/// The double nearest to `v`.
pub open spec fn as_double(v: nat) -> nat {
    kept(v) * pow2(lost(v))
}

/// The area of `cells` cells a tenth of a metre wide, in square metres over `pow2(110)`: their
/// number times a tenth, times a tenth.
pub open spec fn area(cells: nat) -> nat {
    as_double(as_double(as_double(cells) * TENTH as nat) * TENTH as nat)
}

/// That area with one decimal.
pub open spec fn area_shown(cells: nat) -> Seq<char> {
    decimal(area(cells) as int, pow2(110) as int)
}

/// A common factor makes no difference to a rounded quotient.
proof fn lemma_to_even_scaled(a: int, b: int, c: int)
    requires
        a >= 0,
        b > 0,
        c > 0,
    ensures
        to_even(a * c, b * c) == to_even(a, b),
{
    let q = a / b;
    let r = a % b;
    lemma_fundamental_div_mod(a, b);
    assert(a * c == q * (b * c) + r * c && 0 <= r * c < b * c && b * c > 0) by (nonlinear_arith)
        requires
            a == b * q + r,
            0 <= r < b,
            c > 0,
    ;
    lemma_fundamental_div_mod_converse(a * c, b * c, q, r * c);
    assert(2 * (r * c) < b * c <==> 2 * r < b) by (nonlinear_arith)
        requires
            c > 0,
    ;
    assert(2 * (r * c) == b * c <==> 2 * r == b) by (nonlinear_arith)
        requires
            c > 0,
    ;
}

proof fn lemma_doubled(v: nat)
    ensures
        as_double(v * 2) == as_double(v) * 2,
{
    lemma_pow2_pos(lost(v));
    if v * 2 < TOO_WIDE {
        lemma_whole(v);
        lemma_whole(v * 2);
    } else {
        assert((v * 2) / 2 == v);
        assert(lost(v * 2) == 1 + lost(v));
        lemma_pow2_unfold(lost(v) + 1);
        let u = pow2(lost(v));
        assert(pow2(lost(v * 2)) == 2 * u);
        lemma_to_even_scaled(v as int, u as int, 2);
        assert(kept(v * 2) == kept(v));
        assert(kept(v) * (2 * u) == kept(v) * u * 2) by (nonlinear_arith);
    }
}

/// What a double has room for it keeps.
proof fn lemma_whole(v: nat)
    requires
        v < TOO_WIDE,
    ensures
        lost(v) == 0,
        kept(v) == v,
        as_double(v) == v,
{
    lemma2_to64();
    assert(pow2(0) == 1);
}

/// A power of two is no matter to what a double keeps.
proof fn lemma_shifted(v: nat, s: nat)
    ensures
        as_double(v * pow2(s)) == as_double(v) * pow2(s),
    decreases s,
{
    if s == 0 {
        lemma2_to64();
        assert(pow2(0) == 1);
    } else {
        let u = pow2((s - 1) as nat);
        lemma_pow2_unfold(s);
        lemma_shifted(v, (s - 1) as nat);
        lemma_doubled(v * u);
        assert(v * (2 * u) == v * u * 2) by (nonlinear_arith);
        assert(as_double(v) * (2 * u) == as_double(v) * u * 2) by (nonlinear_arith);
    }
}

/// The smaller power of two has the smaller exponent.
proof fn lemma_exponent(n: nat, k: nat)
    requires
        pow2(n) < pow2(k),
    ensures
        n < k,
{
    if n > k {
        lemma_pow2_strictly_increases(k, n);
    }
}

/// The digits of `v` that a double keeps, and how many it loses.
fn split(v: u128) -> (r: (u128, u32))
    requires
        v < 0x400_0000_0000_0000_0000_0000_0000,
    ensures
        r.0 == kept(v as nat),
        r.0 <= TOO_WIDE,
        r.1 == lost(v as nat),
        r.1 <= 53,
        v < 0x1_0000_0000_0000_0000 ==> r.1 <= 11,
{
    let mut w: u128 = v;
    let mut unit: u128 = 1;
    let mut n: u32 = 0;
    proof {
        lemma2_to64();
        lemma2_to64_rest();
    }
    while w >= 0x20_0000_0000_0000
        invariant
            v < 0x400_0000_0000_0000_0000_0000_0000,
            pow2(53) == 0x20_0000_0000_0000,
            pow2(11) == 0x800,
            unit == pow2(n as nat),
            0 < unit <= 0x20_0000_0000_0000,
            n <= 53,
            v < 0x1_0000_0000_0000_0000 ==> n <= 11,
            w == v / unit,
            lost(v as nat) == n + lost(w as nat),
        decreases w,
    {
        proof {
            lemma_fundamental_div_mod(v as int, unit as int);
            assert(unit < 0x20_0000_0000_0000) by (nonlinear_arith)
                requires
                    unit * w <= v,
                    v < 0x400_0000_0000_0000_0000_0000_0000,
                    w >= 0x20_0000_0000_0000,
            ;
            lemma_exponent(n as nat, 53);
            if v < 0x1_0000_0000_0000_0000 {
                assert(unit < 0x800) by (nonlinear_arith)
                    requires
                        unit * w <= v,
                        v < 0x1_0000_0000_0000_0000,
                        w >= 0x20_0000_0000_0000,
                ;
                lemma_exponent(n as nat, 11);
            }
            lemma_pow2_unfold((n + 1) as nat);
            if n + 1 < 53 {
                lemma_pow2_strictly_increases((n + 1) as nat, 53);
            }
            lemma_div_denominator(v as int, unit as int, 2);
        }
        w = w / 2;
        n = n + 1;
        unit = unit * 2;
    }
    let r: u128 = v % unit;
    if 2 * r < unit || (2 * r == unit && w % 2 == 0) {
        (w, n)
    } else {
        (w + 1, n)
    }
}

fn power(k: u32) -> (p: i128)
    requires
        k <= 110,
    ensures
        p == pow2(k as nat),
        0 < p <= 0x4000_0000_0000_0000_0000_0000_0000,
{
    let mut p: i128 = 1;
    let mut n: u32 = 0;
    proof {
        lemma2_to64();
        lemma2_to64_rest();
        lemma_pow2_adds(55, 55);
    }
    while n < k
        invariant
            n <= k <= 110,
            pow2(110) == 0x4000_0000_0000_0000_0000_0000_0000,
            p == pow2(n as nat),
            0 < p <= 0x4000_0000_0000_0000_0000_0000_0000,
        decreases k - n,
    {
        proof {
            lemma_pow2_unfold((n + 1) as nat);
            if n + 1 < 110 {
                lemma_pow2_strictly_increases((n + 1) as nat, 110);
            }
        }
        p = p * 2;
        n = n + 1;
    }
    p
}

/// A quotient with a common power of two, written with one decimal.
proof fn lemma_decimal_scaled(a: int, b: int, c: int)
    requires
        a >= 0,
        b > 0,
        c > 0,
    ensures
        decimal(a * c, b * c) == decimal(a, b),
{
    assert(a * c >= 0) by (nonlinear_arith)
        requires
            a >= 0,
            c > 0,
    ;
    lemma_to_even_scaled(a * 10, b, c);
    assert(a * c * 10 == a * 10 * c) by (nonlinear_arith);
}

/// The area of `cells` cells in square metres, with one decimal.
pub fn area_text(cells: u64) -> (s: String)
    ensures
        s@ == area_shown(cells as nat),
{
    let (a, i) = split(cells as u128);
    let (p, j) = split(a * 3_602_879_701_896_397);
    let (q, k) = split(p * 3_602_879_701_896_397);
    let n: u32 = i + j + k;
    let ghost t = TENTH as nat;
    proof {
        let (pi, pj, pk) = (pow2(i as nat), pow2(j as nat), pow2(k as nat));
        assert(as_double(cells as nat) == a as nat * pi);
        lemma_shifted(a as nat * t, i as nat);
        assert(a as nat * pi * t == a as nat * t * pi) by (nonlinear_arith);
        lemma_pow2_adds(i as nat, j as nat);
        let once = as_double(as_double(cells as nat) * t);
        assert(once == p as nat * pow2((i + j) as nat)) by {
            assert(p as nat * pj * pi == p as nat * (pi * pj)) by (nonlinear_arith);
        }
        let pij = pow2((i + j) as nat);
        lemma_shifted(p as nat * t, (i + j) as nat);
        assert(p as nat * pij * t == p as nat * t * pij) by (nonlinear_arith);
        lemma_pow2_adds((i + j) as nat, k as nat);
        assert(area(cells as nat) == q as nat * pow2(n as nat)) by {
            assert(q as nat * pk * pij == q as nat * (pij * pk)) by (nonlinear_arith);
        }
        lemma_pow2_pos(n as nat);
        lemma_pow2_pos(110);
    }
    if n <= 110 {
        let b: i128 = power(110 - n);
        proof {
            lemma_pow2_adds((110 - n) as nat, n as nat);
            lemma_decimal_scaled(q as int, b as int, pow2(n as nat) as int);
        }
        in_decimal(q as i128, b)
    } else {
        let b: i128 = power(n - 110);
        proof {
            lemma2_to64();
            if n - 110 < 7 {
                lemma_pow2_strictly_increases((n - 110) as nat, 7);
            }
            assert(q * b <= 0x20_0000_0000_0000 * 0x80) by (nonlinear_arith)
                requires
                    0 <= q <= 0x20_0000_0000_0000,
                    0 <= b <= 0x80,
            ;
            assert(0 <= q * b) by (nonlinear_arith)
                requires
                    0 <= q,
                    0 <= b,
            ;
            lemma_pow2_adds(110, (n - 110) as nat);
            lemma_decimal_scaled(q * b, 1, pow2(110) as int);
            let u = pow2(110);
            assert(q * b * u == q * (u * b)) by (nonlinear_arith);
            assert(1 * u as int == u);
        }
        in_decimal(q as i128 * b, 1)
    }
}

} // verus!
