//! Drives: the slow scalars behaviours are scored against. This is the whole "mood model".
//!
//! Each is held between 0 and [`ONE`]. They move on the order of minutes, which is what makes
//! a duck look like it has a day rather than a random number generator.

use vstd::prelude::*;

use crate::units::{floor_div, held, hold, magnitude, NANO};
use crate::world::World;

verus! {

/// A full drive. With this many parts every rate below is a whole number of parts per
/// nanosecond.
pub const ONE: i64 = 36_000_000_000_000;

/// What a second at full activity drains: a two hundred and fortieth. Rates are in parts per
/// nanosecond, tuned so a full-energy duck wanders for a few minutes, chills a while, naps
/// for a couple, and does not repeat itself on the minute.
pub const ENERGY_DRAIN_PER_ACTIVITY: i64 = 150;

/// What a second at rest recovers: a four hundredth.
pub const ENERGY_REST_RECOVERY: i64 = 90;

/// What a second asleep recovers: a ninetieth.
pub const ENERGY_NAP_RECOVERY: i64 = 400;

/// How fast curiosity builds: a hundred and twentieth a second.
pub const CURIOSITY_RISE: i64 = 300;

/// What a new place takes off curiosity: 0.15.
pub const CURIOSITY_PAYOUT: i64 = 5_400_000_000_000;

/// How fast comfort returns to the middle: a hundred and eightieth a second.
pub const COMFORT_RELAX: i64 = 200;

/// How fast comfort rises under a hand: a sixtieth a second.
pub const COMFORT_PETTED: i64 = 600;

/// What a startle takes off comfort: 0.3.
pub const STARTLE: i64 = 10_800_000_000_000;

/// The middle, where comfort returns to.
pub const MIDDLE: i64 = 18_000_000_000_000;

/// Activity below this many billionths counts as rest.
pub const RESTFUL: u32 = 50_000_000;

#[derive(Debug, Clone, Copy, PartialEq, Eq, Structural)]
pub struct Drives {
    /// Drains with motion, recovers at rest and fastest asleep.
    pub energy: i64,
    /// Rises with time since the last new place, drops when Wander finds one.
    pub curiosity: i64,
    /// Stays where it is: nothing feeds it yet.
    pub social: i64,
    /// Rises when petted, drops on a startle, drifts back to the middle.
    pub comfort: i64,
}

/// A drive held within its range.
pub open spec fn level(v: int) -> i64 {
    held(v, 0, ONE as int) as i64
}

fn level_of(v: i128) -> (r: i64)
    ensures
        r == level(v as int),
{
    hold(v, 0, ONE)
}

impl Default for Drives {
    /// Rested, a little curious, at ease.
    fn default() -> (d: Self)
        ensures
            d == Drives::fresh(),
    {
        Drives {
            energy: 28_800_000_000_000,
            curiosity: 18_000_000_000_000,
            social: 10_800_000_000_000,
            comfort: 18_000_000_000_000,
        }
    }
}

/// How much a rest of length `dt` recovers.
pub open spec fn recovery(dt: int, activity: u32, napping: bool) -> int {
    if napping {
        ENERGY_NAP_RECOVERY * dt
    } else if activity < RESTFUL {
        ENERGY_REST_RECOVERY * dt
    } else {
        0
    }
}

/// How much activity of length `dt` drains.
pub open spec fn drain(dt: int, activity: u32) -> int {
    ENERGY_DRAIN_PER_ACTIVITY * activity * dt / (NANO as int)
}

/// Comfort after it has drifted towards the middle for `dt`, no further than the middle.
pub open spec fn relaxed(comfort: int, dt: int) -> int {
    let toward = MIDDLE - comfort;
    let most = COMFORT_RELAX * dt;
    let step = if magnitude(toward) < most {
        magnitude(toward)
    } else {
        most
    };
    if toward >= 0 {
        comfort + step
    } else {
        comfort - step
    }
}

impl Drives {
    /// What a duck boots with: energy 0.8, curiosity 0.5, social 0.3, comfort 0.5.
    pub open spec fn fresh() -> Drives {
        Drives {
            energy: 28_800_000_000_000,
            curiosity: 18_000_000_000_000,
            social: 10_800_000_000_000,
            comfort: 18_000_000_000_000,
        }
    }

    /// The drives after `dt`.
    pub open spec fn updated(
        self,
        dt: int,
        activity: u32,
        napping: bool,
        new_place: bool,
        standing: bool,
        petted: bool,
    ) -> Drives {
        Drives {
            energy: level(
                self.energy + recovery(dt, activity, napping) - drain(dt, activity),
            ),
            curiosity: if new_place {
                level(self.curiosity - CURIOSITY_PAYOUT)
            } else if standing {
                level(self.curiosity + CURIOSITY_RISE * dt)
            } else {
                self.curiosity
            },
            social: self.social,
            comfort: if petted {
                level(self.comfort + COMFORT_PETTED * dt)
            } else {
                level(relaxed(self.comfort as int, dt))
            },
        }
    }

    /// `activity` is 0 (still) to [`NANO`] (zoomies); `napping` switches recovery to the fast
    /// rate. `new_place` is the novelty grid's verdict for this tick.
    pub fn update(&mut self, dt: i64, activity: u32, napping: bool, new_place: bool, world: &World)
        ensures
            *final(self) == old(self).updated(
                dt as int,
                activity,
                napping,
                new_place,
                world.is_standing(),
                world.petting_since is Some,
            ),
            // Under a hand comfort ends higher than it began, unless it is full.
            world.petting_since is Some && dt > 0 && 0 <= old(self).comfort < ONE
                ==> final(self).comfort > old(self).comfort,
    {
        let dt: i128 = dt as i128;
        proof {
            lemma_drain_fits(activity as int, dt as int);
        }
        let drained: i128 = floor_div(150 * activity as i128 * dt, 1_000_000_000);
        let recovered: i128 = if napping {
            400 * dt
        } else if activity < RESTFUL {
            90 * dt
        } else {
            0
        };
        self.energy = level_of(self.energy as i128 + recovered - drained);
        if new_place {
            self.curiosity = level_of(self.curiosity as i128 - CURIOSITY_PAYOUT as i128);
        } else if world.standing() {
            self.curiosity = level_of(self.curiosity as i128 + 300 * dt);
        }
        if world.petting() {
            self.comfort = level_of(self.comfort as i128 + 600 * dt);
            return;
        }
        // Otherwise comfort drifts back to the middle from either side.
        let toward: i128 = MIDDLE as i128 - self.comfort as i128;
        let away: i128 = if toward < 0 {
            -toward
        } else {
            toward
        };
        let most: i128 = 200 * dt;
        let step: i128 = if away < most {
            away
        } else {
            most
        };
        self.comfort = level_of(
            if toward >= 0 {
                self.comfort as i128 + step
            } else {
                self.comfort as i128 - step
            },
        );
    }

    /// The drives after a startle.
    pub open spec fn after_startle(self) -> Drives {
        Drives { comfort: level(self.comfort - STARTLE), ..self }
    }

    pub fn startled(&mut self)
        ensures
            *final(self) == old(self).after_startle(),
    {
        self.comfort = level_of(self.comfort as i128 - STARTLE as i128);
    }

    /// Every drive is within its range.
    pub open spec fn in_range(self) -> bool {
        &&& 0 <= self.energy <= ONE
        &&& 0 <= self.curiosity <= ONE
        &&& 0 <= self.social <= ONE
        &&& 0 <= self.comfort <= ONE
    }
}

proof fn lemma_drain_fits(activity: int, dt: int)
    requires
        0 <= activity <= u32::MAX,
        i64::MIN <= dt <= i64::MAX,
    ensures
        -0x1000_0000_0000_0000_0000_0000_0000 <= 150 * activity * dt
            <= 0x1000_0000_0000_0000_0000_0000_0000,
        ENERGY_DRAIN_PER_ACTIVITY * activity * dt == 150 * activity * dt,
{
    let a = 150 * activity;
    assert(-0x1000_0000_0000_0000_0000_0000_0000 <= a * dt
        <= 0x1000_0000_0000_0000_0000_0000_0000) by (nonlinear_arith)
        requires
            0 <= a <= 150 * 0xffff_ffff,
            -0x8000_0000_0000_0000 <= dt <= 0x8000_0000_0000_0000,
    ;
}

/// Drives never leave their range, whatever happens and for however long.
pub proof fn law_drives_stay_in_range(
    d: Drives,
    dt: int,
    activity: u32,
    napping: bool,
    new_place: bool,
    standing: bool,
    petted: bool,
)
    ensures
        Drives::fresh().in_range(),
        d.in_range() ==> d.updated(dt, activity, napping, new_place, standing, petted).in_range(),
        d.in_range() ==> d.after_startle().in_range(),
{
}

/// Comfort rises when petted, as long as the hand is there and it is not full; given a minute
/// it is.
pub proof fn law_petting_comforts(
    d: Drives,
    dt: int,
    activity: u32,
    napping: bool,
    new_place: bool,
    standing: bool,
)
    requires
        d.in_range(),
        dt > 0,
    ensures
        ({
            let after = d.updated(dt, activity, napping, new_place, standing, true);
            &&& after.comfort > d.comfort || after.comfort == ONE
            &&& dt >= 60_000_000_000 ==> after.comfort == ONE
        }),
{
}

/// With no hand on the back, comfort drifts back to the middle from either side and never past
/// it; given 90 seconds it is there.
pub proof fn law_comfort_returns_to_the_middle(
    d: Drives,
    dt: int,
    activity: u32,
    napping: bool,
    new_place: bool,
    standing: bool,
)
    requires
        d.in_range(),
        dt >= 0,
    ensures
        ({
            let after = d.updated(dt, activity, napping, new_place, standing, false);
            &&& magnitude(MIDDLE - after.comfort) <= magnitude(MIDDLE - d.comfort)
            &&& d.comfort <= MIDDLE ==> d.comfort <= after.comfort <= MIDDLE
            &&& d.comfort >= MIDDLE ==> MIDDLE <= after.comfort <= d.comfort
            &&& dt >= 90_000_000_000 ==> after.comfort == MIDDLE
        }),
{
}

/// Sleep only ever fills energy, rest fills it more slowly, and full activity drains it.
pub proof fn law_sleep_fills_and_motion_drains(
    d: Drives,
    dt: int,
    new_place: bool,
    standing: bool,
    petted: bool,
)
    requires
        d.in_range(),
        dt >= 0,
    ensures
        d.updated(dt, 0, true, new_place, standing, petted).energy >= d.updated(
            dt,
            0,
            false,
            new_place,
            standing,
            petted,
        ).energy >= d.energy,
        d.updated(dt, 1_000_000_000, false, new_place, standing, petted).energy <= d.energy,
        dt >= 90_000_000_000 ==> d.updated(dt, 0, true, new_place, standing, petted).energy == ONE,
{
    assert(ENERGY_DRAIN_PER_ACTIVITY * 1_000_000_000u32 * dt >= 0) by (nonlinear_arith)
        requires
            dt >= 0,
            ENERGY_DRAIN_PER_ACTIVITY == 150,
    ;
    assert(ENERGY_DRAIN_PER_ACTIVITY * 0u32 * dt == 0) by (nonlinear_arith);
}

/// Curiosity builds while the duck stands about and drops when it finds a new place.
pub proof fn law_curiosity_builds_and_pays_out(
    d: Drives,
    dt: int,
    activity: u32,
    napping: bool,
    petted: bool,
)
    requires
        d.in_range(),
        dt >= 0,
    ensures
        d.updated(dt, activity, napping, false, true, petted).curiosity >= d.curiosity,
        d.updated(dt, activity, napping, true, true, petted).curiosity == level(
            d.curiosity - CURIOSITY_PAYOUT,
        ),
        d.curiosity >= CURIOSITY_PAYOUT ==> d.updated(
            dt,
            activity,
            napping,
            true,
            true,
            petted,
        ).curiosity == d.curiosity - CURIOSITY_PAYOUT,
{
}

} // verus!
