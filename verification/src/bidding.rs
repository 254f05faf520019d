//! What a bid is for: each behaviour is bid for when it makes sense and no other time, and for
//! more the more the duck is in the mood for it.

use vstd::prelude::*;

use crate::behaviours::{applies, bid, jitter, points, scored, seed_after, share, Kind};
use crate::dice::{chance, reseeded, STEPS};
use crate::drives::{Drives, ONE};
use crate::world::{Mode, World};

verus! {

/// The way ahead is known to be free for `r`: a recent frame, and nothing nearer in it.
pub open spec fn is_clear(w: World, r: i64) -> bool {
    w.obstacles.center matches Some(c) ==> c >= r
}

/// The depth frame is no older than half a second.
pub open spec fn sees(w: World) -> bool {
    w.obstacles.age_s matches Some(a) && a <= 500_000_000
}

/// The robot is on its feet and a gait drives it.
pub open spec fn on_feet(w: World) -> bool {
    (w.policy@ == "stand"@ || w.policy@ == "walk"@) && !w.fallen && !w.limp
}

/// Walking, turning and running want the sensor: to walk there must be 0.35 m of room, to run
/// 1.2 m with something at the end of it and energy at 0.7.
pub proof fn law_moving_is_bid_for_where_there_is_room(
    w: World,
    d: Drives,
    prev_center: Option<i64>,
)
    ensures
        applies(Kind::Wander, w, d, prev_center) <==> on_feet(w) && sees(w) && is_clear(
            w,
            350_000_000,
        ),
        applies(Kind::TurnInPlace, w, d, prev_center) <==> on_feet(w) && sees(w),
        applies(Kind::Zoomies, w, d, prev_center) <==> on_feet(w) && sees(w) && is_clear(
            w,
            1_200_000_000,
        ) && w.obstacles.center is Some && 10 * d.energy >= 7 * 36_000_000_000_000,
        applies(Kind::Maze, w, d, prev_center) <==> on_feet(w) && sees(w) && w.maze,
        applies(Kind::GroundPick, w, d, prev_center) <==> on_feet(w) && sees(w)
            && w.obstacles.floor_ahead && w.mode == Mode::Walk && 2 * d.curiosity
            >= 36_000_000_000_000,
{
}

/// Standing about and the gestures can always be bid for on the duck's feet; a nap also while it
/// sits, but not while it is down, held, or finding its way home.
pub proof fn law_resting_is_always_bid_for(w: World, d: Drives, prev_center: Option<i64>)
    ensures
        applies(Kind::Chill, w, d, prev_center) <==> on_feet(w),
        applies(Kind::LookAround, w, d, prev_center) <==> on_feet(w),
        applies(Kind::Stretch, w, d, prev_center) <==> on_feet(w),
        applies(Kind::Ruffle, w, d, prev_center) <==> on_feet(w),
        applies(Kind::Preen, w, d, prev_center) <==> on_feet(w),
        applies(Kind::Sneeze, w, d, prev_center) <==> on_feet(w),
        applies(Kind::Nap, w, d, prev_center) <==> !w.fallen && !w.limp && w.policy@ != "held"@
            && w.policy@ != "homing"@,
{
}

/// Something came at the duck: straight ahead, with the head level, it is more than 0.3 m nearer
/// than at the last round, and within half a metre.
pub open spec fn comes_at(w: World, prev_center: Option<i64>) -> bool {
    &&& prev_center is Some
    &&& w.obstacles.center is Some
    &&& prev_center->0 - w.obstacles.center->0 > 300_000_000
    &&& w.obstacles.center->0 < 500_000_000
    &&& -300_000_000 < w.head@[2] < 300_000_000
    &&& w.head@[1] < 300_000_000
}

/// A startle is bid for at a noise in the last 0.4 s, unless the duck is being petted, and when
/// the sensor has just seen something too close or coming at it.
pub proof fn law_startles_have_a_cause(w: World, d: Drives, prev_center: Option<i64>)
    ensures
        applies(Kind::Startle, w, d, prev_center) <==> on_feet(w) && {
            ||| w.petting_since is None && (w.last_noise matches Some(t) && w.t - t < 400_000_000)
            ||| sees(w) && (w.obstacles.too_close || comes_at(w, prev_center))
        },
{
}

/// Company is bid for when it is there: a hand, a beat, a duck to greet; and calling out when for
/// three minutes there has been none, none is about, and the duck is low on it.
pub proof fn law_company_is_answered(w: World, d: Drives, prev_center: Option<i64>)
    ensures
        applies(Kind::Petted, w, d, prev_center) <==> on_feet(w) && w.petting_since is Some,
        applies(Kind::Dance, w, d, prev_center) <==> on_feet(w) && w.beat_gap() is Some,
        applies(Kind::Greet, w, d, prev_center) <==> on_feet(w) && w.greet_pending is Some,
        applies(Kind::Lonely, w, d, prev_center) <==> {
            &&& on_feet(w)
            &&& w.ducks_around().len() == 0
            &&& w.t - (match w.last_company {
                Some(t) => t as int,
                None => 0,
            }) >= 180_000_000_000
            &&& 10 * d.social <= 3 * 36_000_000_000_000
        },
{
}

/// `h` hundredths of a bid.
pub open spec fn whole(h: int) -> int {
    h * 162_129_586_585_337_856_000_000_000_000
}

/// `h` hundredths of a bid in the measure of a drive, of which there are thirty-six million
/// million parts.
pub open spec fn of_drive(h: int, parts: int) -> int {
    h * parts * 4_503_599_627_370_496
}

/// `h` hundredths of a bid in the measure of a throw of the dice.
pub open spec fn of_luck(h: int, k: int) -> int {
    h * 36_000_000_000_000 * k
}

proof fn lemma_measures(h: int, x: int)
    ensures
        points(h) == whole(h),
        share(h, x) == of_drive(h, x),
        jitter(h, x) == of_luck(h, x),
{
    assert(h * ONE * STEPS == h * 162_129_586_585_337_856_000_000_000_000) by (nonlinear_arith)
        requires
            ONE == 36_000_000_000_000,
            STEPS == 4_503_599_627_370_496,
    ;
}

/// Moods: the tired stand about or nap, the curious look, wander and pick, the lively wander,
/// run and dance, the comfortable stretch; a duck boxed in turns, one almost spent naps. What
/// has to be answered is bid for outright: a mission, a hand, a startle, a duck, in that order.
pub proof fn law_bids_follow_the_mood(w: World, d: Drives, k: int)
    ensures
        bid(Kind::Chill, w, d, k)
            == whole(30) + of_drive(30, 36_000_000_000_000 - d.energy) + of_luck(15, k),
        bid(Kind::LookAround, w, d, k)
            == whole(30) + of_drive(30, d.curiosity as int) + of_luck(20, k),
        bid(Kind::Wander, w, d, k)
            == whole(25) + of_drive(55, d.curiosity as int) + of_drive(20, d.energy as int)
            + of_luck(10, k),
        !is_clear(w, 350_000_000) ==> bid(Kind::TurnInPlace, w, d, k) == whole(75) + of_luck(10, k),
        is_clear(w, 350_000_000) ==> bid(Kind::TurnInPlace, w, d, k)
            == whole(10) + of_drive(20, d.curiosity as int) + of_luck(15, k),
        bid(Kind::Zoomies, w, d, k) == whole(35) + of_drive(45, d.energy as int) + of_luck(35, k),
        bid(Kind::Stretch, w, d, k) == whole(20) + of_drive(10, d.comfort as int) + of_luck(35, k),
        bid(Kind::Ruffle, w, d, k) == whole(20) + of_drive(10, d.comfort as int) + of_luck(35, k),
        bid(Kind::Preen, w, d, k) == whole(20) + of_drive(10, d.comfort as int) + of_luck(35, k),
        bid(Kind::Sneeze, w, d, k) == whole(5) + of_luck(45, k),
        4 * d.energy < 36_000_000_000_000 ==> bid(Kind::Nap, w, d, k) == whole(95),
        4 * d.energy >= 36_000_000_000_000 ==> bid(Kind::Nap, w, d, k)
            == whole(5) + of_drive(25, 36_000_000_000_000 - d.energy) + of_luck(5, k),
        bid(Kind::GroundPick, w, d, k)
            == whole(25) + of_drive(30, d.curiosity as int) + of_luck(30, k),
        bid(Kind::Dance, w, d, k) == whole(90) + of_drive(20, d.energy as int) + of_luck(10, k),
        bid(Kind::Lonely, w, d, k) == whole(25) + of_luck(25, k),
        bid(Kind::Maze, w, d, k) == whole(200),
        bid(Kind::Petted, w, d, k) == whole(160),
        bid(Kind::Startle, w, d, k) == whole(150),
        bid(Kind::Greet, w, d, k) == whole(140),
{
    assert forall|h: int| #[trigger] points(h) == whole(h) by {
        lemma_measures(h, 0);
    }
    assert forall|h: int, x: int| #[trigger] share(h, x) == of_drive(h, x) by {
        lemma_measures(h, x);
    }
    assert forall|h: int, x: int| #[trigger] jitter(h, x) == of_luck(h, x) by {
        lemma_measures(h, x);
    }
}

/// A curious, rested duck wanders sooner than it stands about: with curiosity at 0.9 and energy
/// at a half the bid is better by more than the margin, whatever the dice say.
pub proof fn law_curious_duck_wanders(w: World, d: Drives, k: int, j: int)
    requires
        d.in_range(),
        10 * d.curiosity >= 9 * 36_000_000_000_000,
        2 * d.energy >= 36_000_000_000_000,
        0 <= k < 4_503_599_627_370_496,
        0 <= j < 4_503_599_627_370_496,
    ensures
        bid(Kind::Wander, w, d, k) > bid(Kind::Chill, w, d, j) + points(10),
{
    let (e, s) = (36_000_000_000_000int, 4_503_599_627_370_496int);
    assert(55 * d.curiosity * s >= 49 * e * s) by (nonlinear_arith)
        requires
            10 * d.curiosity >= 9 * e,
            e == 36_000_000_000_000,
            s == 4_503_599_627_370_496,
    ;
    assert(20 * d.energy * s >= 10 * e * s) by (nonlinear_arith)
        requires
            2 * d.energy >= e,
            s == 4_503_599_627_370_496,
    ;
    assert(30 * (e - d.energy) * s <= 15 * e * s) by (nonlinear_arith)
        requires
            2 * d.energy >= e,
            s == 4_503_599_627_370_496,
    ;
    assert(0 <= 10 * e * k && 15 * e * j <= 15 * e * s) by (nonlinear_arith)
        requires
            0 <= k,
            0 <= j < s,
            e == 36_000_000_000_000,
    ;
    assert(points(10) == 10 * e * s);
    assert(points(25) == 25 * e * s);
    assert(points(30) == 30 * e * s);
    assert(e * s > 0);
}

/// The dice are thrown where luck has a part in the bid and nowhere else, once, and the bid is
/// made with that throw.
pub proof fn law_luck_is_drawn_once(
    kind: Kind,
    w: World,
    d: Drives,
    prev_center: Option<i64>,
    seed: u64,
)
    ensures
        ({
            let sure = kind is Maze || kind is Petted || kind is Startle || kind is Greet || (kind is Nap
                && 4 * d.energy < 36_000_000_000_000);
            let after = seed_after(kind, w, d, prev_center, seed);
            &&& !applies(kind, w, d, prev_center) ==> scored(kind, w, d, prev_center, seed) is None
                && after == seed
            &&& applies(kind, w, d, prev_center) ==> scored(kind, w, d, prev_center, seed) == Some(
                bid(kind, w, d, chance(seed)),
            )
            &&& applies(kind, w, d, prev_center) && sure ==> after == seed
            &&& applies(kind, w, d, prev_center) && !sure ==> after == reseeded(seed)
        }),
{
}

} // verus!
