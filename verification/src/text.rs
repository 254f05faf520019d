//! Text built piece by piece: numerals and runs of pieces.

use vstd::prelude::*;

use crate::units::magnitude;

verus! {

/// One decimal digit.
pub open spec fn digit(d: nat) -> Seq<char> {
    if d == 0 {
        "0"@
    } else if d == 1 {
        "1"@
    } else if d == 2 {
        "2"@
    } else if d == 3 {
        "3"@
    } else if d == 4 {
        "4"@
    } else if d == 5 {
        "5"@
    } else if d == 6 {
        "6"@
    } else if d == 7 {
        "7"@
    } else if d == 8 {
        "8"@
    } else {
        "9"@
    }
}

/// A natural number in decimal, without leading zeros.
pub open spec fn numeral(n: nat) -> Seq<char>
    decreases n,
{
    if n < 10 {
        digit(n)
    } else {
        numeral(n / 10) + digit(n % 10)
    }
}

/// An integer in decimal, with a minus sign in front where it is negative.
pub open spec fn shown(n: int) -> Seq<char> {
    if n < 0 {
        "-"@ + numeral((-n) as nat)
    } else {
        numeral(n as nat)
    }
}

/// `a / b` to the nearest whole number, halves to the even one; neither is negative.
pub open spec fn to_even(a: int, b: int) -> int {
    let q = a / b;
    let r = a % b;
    if 2 * r < b || 2 * r == b && q % 2 == 0 {
        q
    } else {
        q + 1
    }
}

/// `a / b` written with one decimal; `b` is positive.
pub open spec fn decimal(a: int, b: int) -> Seq<char> {
    let t = to_even(magnitude(a) * 10, b) as nat;
    let body = numeral(t / 10) + "."@ + digit(t % 10);
    if a < 0 {
        "-"@ + body
    } else {
        body
    }
}

/// The pieces `piece(0)`, `piece(1)`, .. `piece(n - 1)`, one after the other.
pub open spec fn spread(n: nat, piece: spec_fn(int) -> Seq<char>) -> Seq<char>
    decreases n,
{
    if n == 0 {
        Seq::empty()
    } else {
        spread((n - 1) as nat, piece) + piece(n - 1)
    }
}

fn digit_of(d: u64) -> (s: &'static str)
    requires
        d < 10,
    ensures
        s@ == digit(d as nat),
{
    if d == 0 {
        "0"
    } else if d == 1 {
        "1"
    } else if d == 2 {
        "2"
    } else if d == 3 {
        "3"
    } else if d == 4 {
        "4"
    } else if d == 5 {
        "5"
    } else if d == 6 {
        "6"
    } else if d == 7 {
        "7"
    } else if d == 8 {
        "8"
    } else {
        "9"
    }
}

pub fn numeral_of(n: u64) -> (s: String)
    ensures
        s@ == numeral(n as nat),
    decreases n,
{
    if n < 10 {
        digit_of(n).to_owned()
    } else {
        let mut s = numeral_of(n / 10);
        s.append(digit_of(n % 10));
        s
    }
}

pub fn number(n: i64) -> (s: String)
    ensures
        s@ == shown(n as int),
{
    if n < 0 {
        let m: u64 = (-(n as i128)) as u64;
        let mut s = "-".to_owned();
        s.append(numeral_of(m).as_str());
        s
    } else {
        numeral_of(n as u64)
    }
}

pub fn in_decimal(a: i128, b: i128) -> (s: String)
    requires
        0 < b <= 0x4000_0000_0000_0000_0000_0000_0000,
        magnitude(a as int) <= b * 0x1000_0000_0000_0000,
        magnitude(a as int) <= 0x1000_0000_0000_0000_0000_0000_0000,
    ensures
        s@ == decimal(a as int, b as int),
{
    let m: i128 = if a < 0 {
        -a
    } else {
        a
    };
    let q: i128 = m * 10 / b;
    let r: i128 = m * 10 % b;
    proof {
        let (x, y) = (m * 10, b as int);
        assert(0 <= x / y <= 0xa000_0000_0000_0000) by (nonlinear_arith)
            requires
                0 <= x <= y * 0xa000_0000_0000_0000,
                y > 0,
        ;
    }
    let up: i128 = if 2 * r < b || (2 * r == b && q % 2 == 0) {
        0
    } else {
        1
    };
    let t: u64 = (q + up) as u64;
    let mut body = numeral_of(t / 10);
    body.append(".");
    body.append(digit_of(t % 10));
    if a < 0 {
        let mut s = "-".to_owned();
        s.append(body.as_str());
        s
    } else {
        body
    }
}

} // verus!
