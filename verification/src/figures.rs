//! What figures are for: a numeral reads back as its number, a rounded quotient is the nearest, an
//! area is the cells' own, and a share of chance is never more than the whole.

use vstd::arithmetic::div_mod::lemma_fundamental_div_mod;
use vstd::arithmetic::power2::{lemma_pow2_pos, lemma_pow2_unfold, pow2};
use vstd::prelude::*;

use crate::bench::{is_digit, number_of};
use crate::dice::{chance, drawn, portion, reseeded, reseeded_by};
use crate::double::{area, area_shown, as_double, kept, lost};
use crate::text::{decimal, digit, numeral, shown, to_even};

verus! {

proof fn lemma_digit(d: nat)
    requires
        d < 10,
    ensures
        digit(d).len() == 1,
        is_digit(digit(d)[0]),
        digit(d)[0] as nat == d + '0' as nat,
{
    reveal_strlit("0");
    reveal_strlit("1");
    reveal_strlit("2");
    reveal_strlit("3");
    reveal_strlit("4");
    reveal_strlit("5");
    reveal_strlit("6");
    reveal_strlit("7");
    reveal_strlit("8");
    reveal_strlit("9");
}

/// A numeral is digits that read back as the number, without a nought in front.
pub proof fn law_numerals_read_back(n: nat)
    ensures
        numeral(n).len() > 0,
        number_of(numeral(n)) == n,
        forall|i: int| 0 <= i < numeral(n).len() ==> is_digit(#[trigger] numeral(n)[i]),
        n > 0 ==> numeral(n)[0] != '0',
    decreases n,
{
    if n < 10 {
        lemma_digit(n);
        let s = numeral(n);
        assert(s.drop_last().len() == 0);
        assert(number_of(s.drop_last()) == 0);
        assert(s.last() == s[0]);
    } else {
        law_numerals_read_back(n / 10);
        lemma_digit(n % 10);
        let (a, b) = (numeral(n / 10), digit(n % 10));
        let s = numeral(n);
        assert(s =~= a + b);
        assert(s.drop_last() =~= a);
        assert(s.last() == b[0]);
        assert forall|i: int| 0 <= i < s.len() implies is_digit(#[trigger] s[i]) by {
            if i < a.len() {
                assert(s[i] == a[i]);
            }
        }
        assert(s[0] == a[0]);
    }
}

/// A negative number is written with a sign and its size, another as it is.
pub proof fn law_signs_are_shown(n: int)
    ensures
        n >= 0 ==> shown(n) == numeral(n as nat),
        n < 0 ==> shown(n).len() > 1 && shown(n)[0] == '-' && number_of(shown(n).skip(1)) == -n,
{
    reveal_strlit("-");
    if n < 0 {
        law_numerals_read_back((-n) as nat);
        assert(shown(n).skip(1) =~= numeral((-n) as nat));
    }
}

/// A quotient rounded to a whole number is the nearest, and the even one of two as near.
pub proof fn law_quotients_are_the_nearest(a: int, b: int)
    requires
        a >= 0,
        b > 0,
    ensures
        -b <= 2 * (b * to_even(a, b) - a) <= b,
        2 * (b * to_even(a, b) - a) == b || 2 * (b * to_even(a, b) - a) == -b ==> to_even(a, b) % 2
            == 0,
{
    lemma_fundamental_div_mod(a, b);
    let (q, r) = (a / b, a % b);
    assert(b * (q + 1) == b * q + b) by (nonlinear_arith);
}

proof fn lemma_lost(v: nat)
    ensures
        v >= 0x20_0000_0000_0000 ==> v >= 0x10_0000_0000_0000 * pow2(lost(v)),
        lost(v) == 0 <==> v < 0x20_0000_0000_0000,
    decreases v,
{
    vstd::arithmetic::power2::lemma2_to64();
    if v >= 0x20_0000_0000_0000 {
        lemma_lost(v / 2);
        lemma_pow2_unfold(lost(v));
        let u = pow2((lost(v) - 1) as nat);
        assert(pow2(lost(v)) == 2 * u);
        if v / 2 < 0x20_0000_0000_0000 {
            assert(lost(v / 2) == 0);
            assert(u == 1);
        }
    }
}

/// A double is the number itself up to fifty-three binary digits, and otherwise off by no more
/// than a part in nine million million million.
pub proof fn law_doubles_are_near(v: nat)
    ensures
        v < 0x20_0000_0000_0000 ==> as_double(v) == v,
        -v <= 0x20_0000_0000_0000 * (as_double(v) - v) <= v,
{
    vstd::arithmetic::power2::lemma2_to64();
    lemma_lost(v);
    lemma_pow2_pos(lost(v));
    let u = pow2(lost(v)) as int;
    law_quotients_are_the_nearest(v as int, u);
    let k = kept(v) as int;
    assert(to_even(v as int, u) >= 0) by {
        lemma_fundamental_div_mod(v as int, u);
        assert((v as int) / u >= 0) by (nonlinear_arith)
            requires
                v >= 0,
                u > 0,
        ;
    }
    assert(k * u == u * k) by (nonlinear_arith);
    if lost(v) == 0 {
        assert(u == 1);
    } else {
        assert(0x20_0000_0000_0000 * (k * u - v) <= v && -v <= 0x20_0000_0000_0000 * (k * u - v))
            by (nonlinear_arith)
            requires
                -u <= 2 * (u * k - v) <= u,
                v >= 0x10_0000_0000_0000 * u,
                k * u == u * k,
        ;
    }
}

/// A share of chance is the whole times the chance, rounded down.
pub proof fn law_shares_are_in_proportion(amount: int, k: int)
    requires
        0 <= k < 4_503_599_627_370_496,
        amount >= 0,
    ensures
        0 <= amount * k - 4_503_599_627_370_496 * portion(amount, k) < 4_503_599_627_370_496,
        portion(amount, 0) == 0,
{
    lemma_fundamental_div_mod(amount * k, 4_503_599_627_370_496);
    assert(amount * 0 == 0);
}

/// Draws follow each other: some and then some more are as many together.
pub proof fn law_draws_add_up(seed: u64, a: nat, b: nat)
    ensures
        reseeded_by(reseeded_by(seed, a), b) == reseeded_by(seed, a + b),
        reseeded_by(seed, 1) == reseeded(seed),
    decreases a,
{
    reveal_with_fuel(reseeded_by, 2);
    if a > 0 {
        law_draws_add_up(reseeded(seed), (a - 1) as nat, b);
    }
}

/// A decimal is written with one digit behind the point, and that is the nearest tenth; one below
/// nought has a sign before it.
pub proof fn law_decimals_are_the_nearest_tenth(a: int, b: int)
    requires
        b > 0,
    ensures
        ({
            let size = if a < 0 {
                -a
            } else {
                a
            };
            let s = if a < 0 {
                decimal(a, b).skip(1)
            } else {
                decimal(a, b)
            };
            let n = s.len() as int;
            let tenths = number_of(s.take(n - 2) + s.skip(n - 1));
            &&& a < 0 ==> decimal(a, b)[0] == '-'
            &&& n >= 3
            &&& s[n - 2] == '.'
            &&& -b <= 2 * (b * tenths - 10 * size) <= b
        }),
{
    reveal_strlit("-");
    reveal_strlit(".");
    let size = if a < 0 {
        -a
    } else {
        a
    };
    law_quotients_are_the_nearest(size * 10, b);
    let q = to_even(size * 10, b);
    assert(q >= 0) by {
        lemma_fundamental_div_mod(size * 10, b);
        assert((size * 10) / b >= 0) by (nonlinear_arith)
            requires
                size >= 0,
                b > 0,
        ;
    }
    let t = q as nat;
    let body = numeral(t / 10) + "."@ + digit(t % 10);
    let s = if a < 0 {
        decimal(a, b).skip(1)
    } else {
        decimal(a, b)
    };
    assert(s =~= body);
    lemma_digit(t % 10);
    law_numerals_read_back(t / 10);
    let n = s.len() as int;
    let both = s.take(n - 2) + s.skip(n - 1);
    assert(s.take(n - 2) =~= numeral(t / 10));
    assert(s.skip(n - 1) =~= digit(t % 10));
    assert(both.drop_last() =~= numeral(t / 10));
    assert(both.last() == digit(t % 10)[0]);
}

/// The area of cells is a hundredth of their number, but for a part in a thousand million million,
/// and is written to the nearest tenth of what it is.
pub proof fn law_area_is_a_hundredth_of_the_cells(cells: nat)
    requires
        cells < 0x20_0000_0000_0000,
    ensures
        ({
            let one = 0x4000_0000_0000_0000_0000_0000_0000int;
            &&& -(cells * one) <= 1_000_000_000_000_000 * (100 * area(cells) - cells * one) <= cells
                * one
            &&& area_shown(cells) == decimal(area(cells) as int, one)
        }),
{
    let t = 3_602_879_701_896_397nat;
    law_doubles_are_near(cells);
    let x = as_double(cells * t);
    law_doubles_are_near(cells * t);
    law_doubles_are_near(x * t);
    vstd::arithmetic::power2::lemma2_to64();
    vstd::arithmetic::power2::lemma2_to64_rest();
    vstd::arithmetic::power2::lemma_pow2_adds(55, 55);
    assert(pow2(110) == 0x80_0000_0000_0000int * 0x80_0000_0000_0000int);
}

/// A draw moves the seed on by one odd number, round the 64-bit clock, and chance is all but the
/// last twelve bits of what is drawn.
pub proof fn law_draws_move_the_seed_on(seed: u64)
    ensures
        ({
            let s = reseeded(seed);
            s == seed + 0x2d35_8dcc_aa6c_78a5 || s == seed + 0x2d35_8dcc_aa6c_78a5
                - 0x1_0000_0000_0000_0000
        }),
        4096 * chance(seed) <= drawn(seed) < 4096 * chance(seed) + 4096,
{
    reveal(reseeded);
    let x = seed + 0x2d35_8dcc_aa6c_78a5u64;
    let turn = 0x1_0000_0000_0000_0000int;
    if x < turn {
        vstd::arithmetic::div_mod::lemma_fundamental_div_mod_converse(x, turn, 0, x);
    } else {
        vstd::arithmetic::div_mod::lemma_fundamental_div_mod_converse(x, turn, 1, x - turn);
    }
    assert(reseeded(seed) == x % turn);
}

} // verus!
