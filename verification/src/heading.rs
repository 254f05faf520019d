//! Where to go and where to look, by chance: headings towards the least-visited ground, and
//! random glances.

use vstd::prelude::*;

use crate::dice::{chance, portion, portion_of, reseeded, reseeded_by, Dice, STEPS};
use crate::units::{held, hold, round_div, rounded, wrap_wide, wrapped, NANO, PI};
use crate::world::{ahead_of, patch_of, World};

verus! {

/// The square root of a half, in billionths.
pub const DIAGONAL: i32 = 707_106_781;

/// How far ahead a heading is judged.
pub const LOOK: i64 = 500_000_000;

/// Candidate `k` of eight, an eighth of a turn apart, from straight back through the right,
/// ahead (the fifth) and the left.
pub open spec fn candidate_yaw(w: World, k: int) -> int {
    wrapped(w.yaw + (k - 4) * PI / 4)
}

/// The cosine and sine of the angle from the duck's heading to candidate `k`.
pub open spec fn eighth(k: int) -> (int, int) {
    if k == 0 {
        (-1_000_000_000, 0)
    } else if k == 1 {
        (-707_106_781, -707_106_781)
    } else if k == 2 {
        (0, -1_000_000_000)
    } else if k == 3 {
        (707_106_781, -707_106_781)
    } else if k == 4 {
        (1_000_000_000, 0)
    } else if k == 5 {
        (707_106_781, 707_106_781)
    } else if k == 6 {
        (0, 1_000_000_000)
    } else {
        (-707_106_781, 707_106_781)
    }
}

/// The cosine and sine of candidate `k`'s heading.
pub open spec fn candidate_facing(w: World, k: int) -> (i32, i32) {
    let (c, s) = (w.facing.0 as int, w.facing.1 as int);
    let e = eighth(k);
    (
        held(rounded(c * e.0 - s * e.1, NANO as int), i32::MIN as int, i32::MAX as int) as i32,
        held(rounded(s * e.0 + c * e.1, NANO as int), i32::MIN as int, i32::MAX as int) as i32,
    )
}

/// Only the three sectors ahead are seen; sideways and back headings are known only by the
/// grid. A sector the sensor calls blocked is refused.
pub open spec fn is_refused(w: World, k: int) -> bool {
    if k == 4 {
        w.obstacles.center matches Some(r) && r < 700_000_000
    } else if k == 5 {
        w.obstacles.left matches Some(r) && r < 500_000_000
    } else if k == 3 {
        w.obstacles.right matches Some(r) && r < 500_000_000
    } else {
        false
    }
}

/// How often the ground that candidate `k` leads to has been visited.
pub open spec fn candidate_visits(w: World, k: int) -> u32 {
    let p = ahead_of(w.odom@[0] as int, w.odom@[1] as int, candidate_facing(w, k), LOOK as int);
    w.grid@.count(patch_of(p.0, p.1))
}

/// A search for a heading, part way through.
pub ghost struct Search {
    pub visits: u32,
    pub yaw: int,
    pub tie: int,
    pub seed: u64,
}

/// The best of the first `k` candidates: the least visited ground, ties broken by a throw
/// each, with going on preferred slightly over turning around.
pub open spec fn searched(w: World, seed: u64, k: nat) -> Search
    decreases k,
{
    if k == 0 {
        Search { visits: u32::MAX, yaw: w.yaw as int, tie: 0, seed }
    } else {
        let best = searched(w, seed, (k - 1) as nat);
        let c = k - 1;
        if is_refused(w, c) {
            best
        } else {
            let visits = candidate_visits(w, c);
            let tie = 10 * chance(best.seed) - (if c == 4 {
                3 * STEPS as int
            } else {
                0
            });
            if visits < best.visits || visits == best.visits && tie < best.tie {
                Search { visits, yaw: candidate_yaw(w, c), tie, seed: reseeded(best.seed) }
            } else {
                Search { seed: reseeded(best.seed), ..best }
            }
        }
    }
}

fn eighth_of(k: usize) -> (e: (i32, i32))
    requires
        k < 8,
    ensures
        e.0 == eighth(k as int).0,
        e.1 == eighth(k as int).1,
{
    let one: i32 = 1_000_000_000;
    if k == 0 {
        (-one, 0)
    } else if k == 1 {
        (-DIAGONAL, -DIAGONAL)
    } else if k == 2 {
        (0, -one)
    } else if k == 3 {
        (DIAGONAL, -DIAGONAL)
    } else if k == 4 {
        (one, 0)
    } else if k == 5 {
        (DIAGONAL, DIAGONAL)
    } else if k == 6 {
        (0, one)
    } else {
        (-DIAGONAL, DIAGONAL)
    }
}

fn facing_of(w: &World, k: usize) -> (f: (i32, i32))
    requires
        k < 8,
    ensures
        f == candidate_facing(*w, k as int),
{
    let e = eighth_of(k);
    let (c, s): (i128, i128) = (w.facing.0 as i128, w.facing.1 as i128);
    let (a, b): (i128, i128) = (e.0 as i128, e.1 as i128);
    proof {
        lemma_turn_fits(c as int, a as int);
        lemma_turn_fits(s as int, b as int);
        lemma_turn_fits(s as int, a as int);
        lemma_turn_fits(c as int, b as int);
    }
    let x: i128 = round_div(c * a - s * b, NANO as i128);
    let y: i128 = round_div(s * a + c * b, NANO as i128);
    (
        hold(x, i32::MIN as i64, i32::MAX as i64) as i32,
        hold(y, i32::MIN as i64, i32::MAX as i64) as i32,
    )
}

proof fn lemma_turn_fits(a: int, b: int)
    requires
        -0x8000_0000 <= a <= 0x8000_0000,
        -0x8000_0000 <= b <= 0x8000_0000,
    ensures
        -0x4000_0000_0000_0000 <= a * b <= 0x4000_0000_0000_0000,
{
    assert(-0x4000_0000_0000_0000 <= a * b <= 0x4000_0000_0000_0000) by (nonlinear_arith)
        requires
            -0x8000_0000 <= a <= 0x8000_0000,
            -0x8000_0000 <= b <= 0x8000_0000,
    ;
}

fn refused(w: &World, k: usize) -> (r: bool)
    ensures
        r == is_refused(*w, k as int),
{
    let (range, least): (Option<i64>, i64) = if k == 4 {
        (w.obstacles.center, 700_000_000)
    } else if k == 5 {
        (w.obstacles.left, 500_000_000)
    } else if k == 3 {
        (w.obstacles.right, 500_000_000)
    } else {
        (None, 0)
    };
    match range {
        Some(r) => r < least,
        None => false,
    }
}

/// A heading that points at the least-visited nearby cell, among those the depth sensor does
/// not object to. Eight candidates, ties broken randomly.
pub fn pick_heading(w: &World, rng: &mut Dice) -> (yaw: i64)
    ensures
        yaw == searched(*w, old(rng).seed, 8).yaw,
        final(rng).seed == searched(*w, old(rng).seed, 8).seed,
{
    let ghost seed = rng.seed;
    let mut best_visits: u32 = u32::MAX;
    let mut best_yaw: i64 = w.yaw;
    let mut best_tie: i128 = 0;
    let mut k: usize = 0;
    while k < 8
        invariant
            k <= 8,
            best_visits == searched(*w, seed, k as nat).visits,
            best_yaw == searched(*w, seed, k as nat).yaw,
            best_tie == searched(*w, seed, k as nat).tie,
            rng.seed == searched(*w, seed, k as nat).seed,
        decreases 8 - k,
    {
        if !refused(w, k) {
            let facing = facing_of(w, k);
            let visits: u32 = w.grid.visits_ahead(w.odom[0], w.odom[1], facing, LOOK);
            let f: u64 = rng.fraction();
            // Prefer going on over turning around, slightly.
            let tie: i128 = 10 * f as i128 - (if k == 4 {
                3 * STEPS as i128
            } else {
                0
            });
            if visits < best_visits || (visits == best_visits && tie < best_tie) {
                let turn: i128 = match k {
                    0 => -(PI as i128),
                    1 => -2_356_194_491,
                    2 => -1_570_796_327,
                    3 => -785_398_164,
                    4 => 0,
                    5 => 785_398_163,
                    6 => 1_570_796_327,
                    _ => 2_356_194_490,
                };
                assert(turn == (k - 4) * PI / 4);
                best_visits = visits;
                best_yaw = wrap_wide(w.yaw as i128 + turn);
                best_tie = tie;
            }
        }
        k += 1;
    }
    best_yaw
}

/// A random glance on a generator seeded with `seed`: level at the neck, some pitch, yaw and
/// roll.
pub open spec fn gaze(seed: u64) -> Seq<i64> {
    seq![
        0i64,
        (-300_000_000 + portion(500_000_000, chance(seed))) as i64,
        (-900_000_000 + portion(1_800_000_000, chance(reseeded(seed)))) as i64,
        (-150_000_000 + portion(300_000_000, chance(reseeded(reseeded(seed))))) as i64,
    ]
}

pub fn random_gaze(rng: &mut Dice) -> (g: [i64; 4])
    ensures
        g@ == gaze(old(rng).seed),
        final(rng).seed == reseeded_by(old(rng).seed, 3),
        -300_000_000 <= g@[1] <= 200_000_000,
        -900_000_000 <= g@[2] <= 900_000_000,
        -150_000_000 <= g@[3] <= 150_000_000,
{
    let pitch: u64 = rng.fraction();
    let yaw: u64 = rng.fraction();
    let roll: u64 = rng.fraction();
    let g: [i64; 4] = [
        0,
        -300_000_000 + portion_of(500_000_000, pitch),
        -900_000_000 + portion_of(1_800_000_000, yaw),
        -150_000_000 + portion_of(300_000_000, roll),
    ];
    proof {
        reveal_with_fuel(reseeded_by, 4);
        assert(g@ =~= gaze(old(rng).seed));
    }
    g
}

/// A refused sector is never headed for: the heading picked is the duck's own, or that of a
/// candidate that was not refused and leads to ground no more visited than any other that was
/// not refused.
pub proof fn law_heading_is_least_visited(w: World, seed: u64, other: int)
    requires
        0 <= other < 8,
        !is_refused(w, other),
    ensures
        searched(w, seed, 8).visits <= candidate_visits(w, other),
        candidate_visits(w, other) < u32::MAX ==> exists|k: int|
            0 <= k < 8 && !is_refused(w, k) && searched(w, seed, 8).yaw == candidate_yaw(w, k)
                && #[trigger] candidate_visits(w, k) == searched(w, seed, 8).visits,
{
    lemma_search(w, seed, 8, other);
}

proof fn lemma_search(w: World, seed: u64, n: nat, other: int)
    requires
        n <= 8,
    ensures
        0 <= other < n && !is_refused(w, other) ==> searched(w, seed, n).visits <= candidate_visits(
            w,
            other,
        ),
        searched(w, seed, n).visits < u32::MAX ==> exists|k: int|
            0 <= k < n && !is_refused(w, k) && searched(w, seed, n).yaw == candidate_yaw(w, k)
                && #[trigger] candidate_visits(w, k) == searched(w, seed, n).visits,
    decreases n,
{
    if n > 0 {
        lemma_search(w, seed, (n - 1) as nat, other);
        assert(candidate_visits(w, n - 1) == candidate_visits(w, n - 1));
    }
}

} // verus!
