//! What one frame of the depth sensor says, beam by beam, in the trunk's frame: `x` ahead,
//! `y` to the left, `z` up. Directions are unit vectors in billionths.

use vstd::prelude::*;

use crate::units::{round_div, rounded, NANO};

verus! {

/// A frame has this many rows of beams, the top one first.
pub const ROWS: usize = 8;

/// A row has this many beams, the leftmost first.
pub const COLS: usize = 8;

/// What one beam found.
#[derive(Debug, Clone, Copy, PartialEq, Eq)]
pub enum Zone {
    /// Something, at a point and at a horizontal range.
    Hit { point: [i64; 3], range: i64 },
    /// The floor.
    Floor { point: [i64; 3] },
    /// Something inside the sensor's short-range noise band.
    TooClose,
    /// Nothing in range.
    Empty,
}

/// The points whose cell of the room has a coordinate of 32 bits lie within this distance: two
/// to the thirty-first cells of a tenth of a metre.
pub const FARTHEST: i64 = 214_748_364_800_000_000;

pub open spec fn near(p: [i64; 3]) -> bool {
    &&& -FARTHEST <= p[0] < FARTHEST
    &&& -FARTHEST <= p[1] < FARTHEST
}

pub fn is_near(p: &[i64; 3]) -> (r: bool)
    ensures
        r == near(*p),
{
    -FARTHEST <= p[0] && p[0] < FARTHEST && -FARTHEST <= p[1] && p[1] < FARTHEST
}

impl Zone {
    /// What the beam found is within what a ray can be drawn over.
    pub open spec fn in_reach(self) -> bool {
        match self {
            Zone::Hit { point, range } => near(point),
            Zone::Floor { point } => near(point),
            Zone::TooClose => true,
            Zone::Empty => true,
        }
    }
}

/// Where the trunk is in the room: a point, and the cosine and sine of its heading.
#[derive(Debug, Clone, Copy, PartialEq, Eq)]
pub struct Pose {
    pub x: i64,
    pub y: i64,
    pub facing: (i32, i32),
}

/// A trunk-frame point turned by the heading whose cosine and sine are `facing`, to the
/// nearest nanometre.
pub open spec fn turned_by(facing: (i32, i32), x: int, y: int) -> (int, int) {
    (
        rounded(facing.0 * x - facing.1 * y, NANO as int),
        rounded(facing.1 * x + facing.0 * y, NANO as int),
    )
}

pub fn turn_by(facing: (i32, i32), x: i64, y: i64) -> (p: (i128, i128))
    ensures
        p.0 == turned_by(facing, x as int, y as int).0,
        p.1 == turned_by(facing, x as int, y as int).1,
{
    let (c, s): (i128, i128) = (facing.0 as i128, facing.1 as i128);
    let (x, y): (i128, i128) = (x as i128, y as i128);
    proof {
        lemma_product_fits(facing.0, x as int);
        lemma_product_fits(facing.1, y as int);
        lemma_product_fits(facing.1, x as int);
        lemma_product_fits(facing.0, y as int);
    }
    (round_div(c * x - s * y, NANO as i128), round_div(s * x + c * y, NANO as i128))
}

proof fn lemma_product_fits(a: i32, b: int)
    requires
        -0x8000_0000_0000_0000 <= b <= 0x8000_0000_0000_0000,
    ensures
        -0x8000_0000 * 0x8000_0000_0000_0000 <= a * b <= 0x8000_0000 * 0x8000_0000_0000_0000,
{
    assert(-0x8000_0000 * 0x8000_0000_0000_0000 <= a * b <= 0x8000_0000 * 0x8000_0000_0000_0000)
        by (nonlinear_arith)
        requires
            -0x8000_0000 <= a <= 0x8000_0000,
            -0x8000_0000_0000_0000 <= b <= 0x8000_0000_0000_0000,
    ;
}

/// A point not much out of reach stays so when turned.
pub proof fn lemma_turned_in_reach(facing: (i32, i32), x: int, y: int)
    requires
        -2 * FARTHEST <= x <= 2 * FARTHEST,
        -2 * FARTHEST <= y <= 2 * FARTHEST,
    ensures
        drawable(turned_by(facing, x, y).0),
        drawable(turned_by(facing, x, y).1),
{
    let (c, s) = (facing.0 as int, facing.1 as int);
    lemma_reach(c, x);
    lemma_reach(c, y);
    lemma_reach(s, x);
    lemma_reach(s, y);
}

/// A coordinate that a ray can be drawn to.
pub open spec fn drawable(v: int) -> bool {
    -2_000_000_000_000_000_000 <= v <= 2_000_000_000_000_000_000
}

proof fn lemma_reach(a: int, b: int)
    requires
        -0x8000_0000 <= a <= 0x8000_0000,
        -2 * FARTHEST <= b <= 2 * FARTHEST,
    ensures
        -0x1_0000_0000 * FARTHEST <= a * b <= 0x1_0000_0000 * FARTHEST,
{
    assert(-0x1_0000_0000 * 214_748_364_800_000_000 <= a * b <= 0x1_0000_0000
        * 214_748_364_800_000_000) by (nonlinear_arith)
        requires
            -0x8000_0000 <= a <= 0x8000_0000,
            -429_496_729_600_000_000 <= b <= 429_496_729_600_000_000,
    ;
}

} // verus!
