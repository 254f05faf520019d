//! Chance, reproducibly: a seed, and one draw of the generator at a time.
//!
//! The state of a `fastrand` generator is its seed, so the seed is all that is kept: the
//! same seed and the same frames give the same decisions.

use vstd::prelude::*;

verus! {

/// How many equal steps the unit interval is drawn in.
pub const STEPS: u64 = 4_503_599_627_370_496;

/// The seed a generator seeded with `seed` holds after its first draw.
#[verifier::opaque]
pub open spec fn reseeded(seed: u64) -> u64 {
    ((seed + 0x2d35_8dcc_aa6c_78a5u64) % 0x1_0000_0000_0000_0000) as u64
}

/// The value it draws: the two halves of a product, one over the other.
#[verifier::opaque]
pub open spec fn drawn(seed: u64) -> u64 {
    let s = reseeded(seed);
    let product = s * (s ^ 0x8bb8_4b93_962e_acc9u64);
    ((product % 0x1_0000_0000_0000_0000) as u64) ^ ((product / 0x1_0000_0000_0000_0000) as u64)
}

/// `fastrand::Rng::u64` over the whole range, on a generator made by
/// `fastrand::Rng::with_seed`, and `fastrand::Rng::get_seed` after it. Claims that the new seed
/// is the old one moved on by a constant, and that the value is the new seed times itself with
/// some bits turned over, the low half of the product over the high half.
#[verifier::external_body]
fn draw_u64(seed: u64) -> (r: (u64, u64))
    ensures
        r.0 == drawn(seed),
        r.1 == reseeded(seed),
{
    let mut rng = fastrand::Rng::with_seed(seed);
    let value = rng.u64(..);
    (value, rng.get_seed())
}

/// The draw as a fraction of [`STEPS`]: the top 52 bits of the generator's word, which is
/// what `fastrand` itself makes a number in `[0, 1)` from.
pub open spec fn chance(seed: u64) -> int {
    (drawn(seed) / 4096) as int
}

/// A seeded source of chance.
#[derive(Clone, Copy, PartialEq, Eq, Structural, Debug)]
pub struct Dice {
    pub seed: u64,
}

/// What `n` draws leave of `seed`.
pub open spec fn reseeded_by(seed: u64, n: nat) -> u64
    decreases n,
{
    if n == 0 {
        seed
    } else {
        reseeded_by(reseeded(seed), (n - 1) as nat)
    }
}

impl Dice {
    pub fn with_seed(seed: u64) -> (d: Dice)
        ensures
            d.seed == seed,
    {
        Dice { seed }
    }

    /// The next fraction of the unit interval, in [`STEPS`]ths.
    pub fn fraction(&mut self) -> (k: u64)
        ensures
            k == chance(old(self).seed),
            k < STEPS,
            final(self).seed == reseeded(old(self).seed),
    {
        let (value, next) = draw_u64(self.seed);
        self.seed = next;
        value / 4096
    }
}

/// `amount` scaled by a fraction of the unit interval, floored.
pub open spec fn portion(amount: int, k: int) -> int {
    amount * k / (STEPS as int)
}

pub fn portion_of(amount: i64, k: u64) -> (p: i64)
    requires
        0 <= amount,
        k < STEPS,
    ensures
        p == portion(amount as int, k as int),
        0 <= p <= amount,
{
    let (a, f) = (amount as i128, k as i128);
    proof {
        let (x, y, s) = (amount as int, k as int, STEPS as int);
        assert(0 <= x * y <= x * s) by (nonlinear_arith)
            requires
                0 <= x,
                0 <= y < s,
        ;
        assert(x * s <= 0x8000_0000_0000_0000 * 4_503_599_627_370_496) by (nonlinear_arith)
            requires
                0 <= x <= 0x8000_0000_0000_0000,
                s == 4_503_599_627_370_496,
        ;
        assert(0 <= x * y / s <= x) by (nonlinear_arith)
            requires
                0 <= x * y <= x * s,
                s > 0,
        ;
    }
    (a * f / STEPS as i128) as i64
}

} // verus!
