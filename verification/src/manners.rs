//! What each behaviour is for: what it does with the body, what it says, and when it is over.

use vstd::prelude::*;

use crate::active::{Act, Outcome};
use crate::behaviours::{Intents, Kind, Level, Limits};
use crate::dice::{chance, portion, STEPS};
use crate::proto::{Skill, SoundTag};
use crate::sensing::law_wrapping_keeps_differences;
use crate::units::wrapped;
use crate::world::World;

verus! {

/// The room on a side; where nothing was seen, there is room.
pub open spec fn room_on(range: Option<i64>) -> int {
    match range {
        Some(r) => r as int,
        None => 9_000_000_000,
    }
}

proof fn lemma_chance(seed: u64)
    ensures
        0 <= chance(seed) < STEPS,
{
    let d = crate::dice::drawn(seed);
    assert(0 <= d / 4096 < 4_503_599_627_370_496);
}

proof fn lemma_portion(amount: int, k: int)
    requires
        amount >= 0,
        0 <= k < STEPS,
    ensures
        0 <= portion(amount, k) <= amount,
{
    let s = STEPS as int;
    assert(0 <= amount * k <= amount * s) by (nonlinear_arith)
        requires
            amount >= 0,
            0 <= k < s,
    ;
    assert(0 <= amount * k / s <= amount) by (nonlinear_arith)
        requires
            0 <= amount * k <= amount * s,
            s > 0,
    ;
}

/// A turn in place is away from the nearer side, by at least 1 and at most 2.6 rad.
pub proof fn law_turn_is_away_from_the_nearer_side(w: World, seed: u64)
    ensures
        ({
            let a = Act::entered(Kind::TurnInPlace, w, seed);
            let turn = wrapped(a.target_yaw - wrapped(w.yaw as int));
            &&& room_on(w.obstacles.left) >= room_on(w.obstacles.right) ==> 1_000_000_000 <= turn
                <= 2_600_000_000
            &&& room_on(w.obstacles.left) < room_on(w.obstacles.right) ==> -2_600_000_000 <= turn
                <= -1_000_000_000
        }),
{
    lemma_chance(seed);
    lemma_portion(1_600_000_000, chance(seed));
    let by = 1_000_000_000 + portion(1_600_000_000, chance(seed));
    law_wrapping_keeps_differences(w.yaw + by, w.yaw as int);
    law_wrapping_keeps_differences(w.yaw - by, w.yaw as int);
    crate::units::law_wrap_takes_whole_turns(w.yaw + by);
    crate::units::law_wrap_takes_whole_turns(w.yaw - by);
}

/// It turns the way its target lies, to the left in place and to the right in an arc ahead, and
/// is over within 0.15 rad of it or after four seconds.
pub proof fn law_turn_goes_to_its_target(
    a: Act,
    w: World,
    limits: Limits,
    seed: u64,
    bearing: Option<i64>,
)
    requires
        a.kind is TurnInPlace,
    ensures
        ({
            let o = a.advanced(w, limits, seed, bearing);
            let err = wrapped(a.target_yaw - w.yaw);
            let t = o.intents.twist;
            &&& err > 0 ==> t[0] == 0 && t[2] == limits.angular
            &&& err <= 0 ==> t[0] == limits.linear && t[2] == -600_000_000
            &&& t[1] == 0
            &&& o.done <==> -150_000_000 < err < 150_000_000 || w.t - a.since > 4_000_000_000
            &&& err >= 0 ==> o.intents.head->0[2].base >= 0
            &&& err < 0 ==> o.intents.head->0[2].base < 0
        }),
{
}

/// The body stays where it is.
pub open spec fn is_still(i: Intents) -> bool {
    i.twist[0] == 0 && i.twist[1] == 0 && i.twist[2] == 0
}

/// How high the body is held.
pub open spec fn rise(i: Intents) -> Level {
    match i.pose {
        Some(p) => p.0,
        None => Level { base: 0, amp: 0, phase: 0 },
    }
}

/// How far it rolls to a side.
pub open spec fn sway(i: Intents) -> Level {
    match i.pose {
        Some(p) => p.1,
        None => Level { base: 0, amp: 0, phase: 0 },
    }
}

/// How far it leans forward.
pub open spec fn lean(i: Intents) -> Level {
    match i.pose {
        Some(p) => p.2,
        None => Level { base: 0, amp: 0, phase: 0 },
    }
}

/// The sound is made on the first tick and on no other.
pub open spec fn says(a: Act, o: Outcome, sound: SoundTag) -> bool {
    &&& !a.fired ==> o.intents.sound == Some(sound)
    &&& a.fired ==> o.intents.sound is None
    &&& o.act.fired
}

/// Nothing but a nap and a pick asks for a skill.
pub open spec fn asks_nothing(o: Outcome) -> bool {
    o.intents.skill is None
}

/// Zoomies: as fast as it goes where there is more than 0.8 m of room, round on the spot where
/// there is not, with one cry, for three and a half seconds.
pub proof fn law_zoomies_run(
    a: Act,
    w: World,
    limits: Limits,
    seed: u64,
    bearing: Option<i64>,
)
    requires
        a.kind is Zoomies,
    ensures
        ({
            let o = a.advanced(w, limits, seed, bearing);
            let t = o.intents.twist;
            &&& room_on(w.obstacles.center) > 800_000_000 ==> t[0] == limits.linear && t[2] == 0
            &&& room_on(w.obstacles.center) <= 800_000_000 ==> t[0] == 0 && t[2] == limits.angular
            &&& says(a, o, SoundTag::Wheee)
            &&& o.done <==> w.t - a.since > 3_500_000_000
            &&& asks_nothing(o)
        }),
{
}

/// A startled duck hops back for 0.4 s with an alarm, its head up, then freezes, a second and a
/// half in all.
pub proof fn law_startle_hops_back_and_freezes(
    a: Act,
    w: World,
    limits: Limits,
    seed: u64,
    bearing: Option<i64>,
)
    requires
        a.kind is Startle,
        limits.linear > i64::MIN,
    ensures
        ({
            let o = a.advanced(w, limits, seed, bearing);
            let t = o.intents.twist;
            let age = w.t - a.since;
            &&& age < 400_000_000 ==> t[0] == -limits.linear
            &&& age >= 400_000_000 ==> t[0] == 0
            &&& t[1] == 0 && t[2] == 0
            &&& says(a, o, SoundTag::Alarm)
            &&& o.intents.head->0[0].base < 0 && o.intents.head->0[1].base < 0
            &&& o.done <==> age > 1_500_000_000
            &&& asks_nothing(o)
        }),
{
}

/// A petted duck stays still, lower and leaning forward, coos once, and stays so while the hand
/// is there and for a second after.
pub proof fn law_petted_duck_leans_in(
    a: Act,
    w: World,
    limits: Limits,
    seed: u64,
    bearing: Option<i64>,
)
    requires
        a.kind is Petted,
    ensures
        ({
            let o = a.advanced(w, limits, seed, bearing);
            &&& is_still(o.intents)
            &&& says(a, o, SoundTag::Coo)
            &&& rise(o.intents).base < 0 && lean(o.intents).base > 0
            &&& o.intents.head->0[0].base > 0 && o.intents.head->0[1].base > 0
            &&& w.petting_since is Some ==> !o.done
            &&& w.petting_since is None && (w.pet_ended matches Some(t) && w.t - t > 1_000_000_000)
                ==> o.done
            &&& w.pet_ended is None || w.t - w.pet_ended->0 <= 1_000_000_000 ==> !o.done
            &&& asks_nothing(o)
        }),
{
}

/// A nap sits down once, from standing, and lies still with its head down; it never ends of
/// itself.
pub proof fn law_nap_sits_once_and_stays(
    a: Act,
    w: World,
    limits: Limits,
    seed: u64,
    bearing: Option<i64>,
)
    requires
        a.kind is Nap,
    ensures
        ({
            let o = a.advanced(w, limits, seed, bearing);
            &&& is_still(o.intents)
            &&& o.intents.sound is None
            &&& o.intents.skill == (if !a.fired && w.is_standing() {
                Some(Skill::SitToggle)
            } else {
                None
            })
            &&& o.intents.skill is Some ==> o.act.fired
            &&& a.fired ==> o.act.fired
            &&& !a.fired && !w.is_standing() ==> !o.act.fired
            &&& !o.done
            &&& o.intents.head->0[0].base > 0 && o.intents.head->0[1].base > 0
        }),
{
}

/// A pick is asked for once; it is over when the robot that took it up is done with it, or if it
/// has not taken it up within two seconds.
pub proof fn law_pick_is_asked_for_and_awaited(
    a: Act,
    w: World,
    limits: Limits,
    seed: u64,
    bearing: Option<i64>,
)
    requires
        a.kind is GroundPick,
        a.phase <= 2,
    ensures
        ({
            let o = a.advanced(w, limits, seed, bearing);
            let picking = w.policy@ == "ground_pick"@;
            &&& is_still(o.intents)
            &&& o.intents.skill == (if a.phase == 0 {
                Some(Skill::GroundPick)
            } else {
                None
            })
            &&& a.phase == 0 ==> o.act.phase == 1 && !o.done
            &&& a.phase == 1 && picking ==> o.act.phase == 2 && !o.done
            &&& a.phase == 1 && !picking ==> o.act.phase == 1 && (o.done <==> w.t - a.since
                > 2_000_000_000)
            &&& a.phase == 2 ==> o.act.phase == 2 && (o.done <==> !picking)
        }),
{
}

/// A greeting is one sound for a stranger and another for a friend, and the duck greeted is the
/// one that was waiting.
pub proof fn law_greeting_tells_friend_from_stranger(
    a: Act,
    w: World,
    limits: Limits,
    seed: u64,
    bearing: Option<i64>,
)
    requires
        a.kind is Greet,
    ensures
        ({
            let o = a.advanced(w, limits, seed, bearing);
            &&& is_still(o.intents)
            &&& a.stranger ==> says(a, o, SoundTag::Greet)
            &&& !a.stranger ==> says(a, o, SoundTag::Chirp)
            &&& o.done <==> w.t - a.since > 2_500_000_000
            &&& asks_nothing(o)
        }),
        w.greet_pending matches Some(p) ==> Act::entered(Kind::Greet, w, seed).stranger == p.1,
{
}

/// A lonely duck stands and calls once, looking from side to side, for three seconds.
pub proof fn law_lonely_duck_calls(
    a: Act,
    w: World,
    limits: Limits,
    seed: u64,
    bearing: Option<i64>,
)
    requires
        a.kind is Lonely,
    ensures
        ({
            let o = a.advanced(w, limits, seed, bearing);
            &&& is_still(o.intents)
            &&& says(a, o, SoundTag::Inquire)
            &&& o.intents.head->0[2].amp == 800_000_000
            &&& o.done <==> w.t - a.since > 3_000_000_000
            &&& asks_nothing(o)
        }),
{
}

/// A dance goes on as long as there is a beat, on the spot: the bob goes round once a beat and
/// the sway once in two, both from the last beat heard.
pub proof fn law_dance_keeps_the_beat(
    a: Act,
    w: World,
    limits: Limits,
    seed: u64,
    bearing: Option<i64>,
)
    requires
        a.kind is Dance,
    ensures
        ({
            let o = a.advanced(w, limits, seed, bearing);
            let beating = w.beat_gap() matches Some(p) && p > 100_000_000 && w.beats@.len() > 0;
            &&& is_still(o.intents)
            &&& says(a, o, SoundTag::Chirp)
            &&& o.done <==> !beating
            &&& asks_nothing(o)
        }),
        w.beat_gap() matches Some(p) ==> (p > 100_000_000 && w.beats@.len() > 0 ==> ({
            let o = a.advanced(w, limits, seed, bearing);
            let since = w.t - w.beats@.last();
            &&& rise(o.intents).phase == ((since * 6_283_185_308) / p) as i128
            &&& sway(o.intents).phase == ((since * 3_141_592_654) / p) as i128
            &&& rise(o.intents).amp == 6_000_000
            &&& sway(o.intents).amp == 120_000_000
        })),
{
}

/// The gestures are made on the spot: stretching is up on tiptoe with the head back for half of
/// it, ruffling a shake that dies down, preening a look to one side with the mouth working, and
/// a sneeze comes out, mouth open, half a second in.
pub proof fn law_gestures_are_made_on_the_spot(
    a: Act,
    w: World,
    limits: Limits,
    seed: u64,
    bearing: Option<i64>,
)
    requires
        a.kind is Stretch || a.kind is Ruffle || a.kind is Preen || a.kind is Sneeze,
        w.t >= a.since,
    ensures
        ({
            let o = a.advanced(w, limits, seed, bearing);
            let age = w.t - a.since;
            let i = o.intents;
            &&& is_still(i)
            &&& asks_nothing(o)
            &&& a.kind is Stretch ==> {
                &&& says(a, o, SoundTag::Coo)
                &&& o.done <==> age > 3_000_000_000
                &&& age < 1_500_000_000 ==> rise(i).base > 0
                &&& age >= 1_500_000_000 ==> rise(i).base == 0
                &&& i.head->0[0].base < 0
            }
            &&& a.kind is Ruffle ==> {
                &&& says(a, o, SoundTag::Chirp)
                &&& o.done <==> age > 2_500_000_000
                &&& age < 2_500_000_000 ==> 125 * sway(i).amp <= 6 * (2_500_000_000 - age)
                    < 125 * sway(i).amp + 125
                &&& age >= 2_500_000_000 ==> sway(i).amp == 0
            }
            &&& a.kind is Preen ==> {
                &&& says(a, o, SoundTag::Peck)
                &&& o.done <==> age > 3_500_000_000
                &&& i.head->0[2].base == 1_000_000_000 || i.head->0[2].base == -1_000_000_000
                &&& i.head->0[1].base > 0
                &&& i.mouth is Some
            }
            &&& a.kind is Sneeze ==> {
                &&& o.done <==> age > 1_500_000_000
                &&& 500_000_000 <= age < 800_000_000 ==> says(a, o, SoundTag::Peck) && i.mouth
                    == Some(Level::steady(1_000_000_000)) && i.head->0[1].base > 0
                &&& age < 500_000_000 ==> i.sound is None && i.head->0[1].base < 0 && o.act.fired
                    == a.fired
                &&& age >= 800_000_000 ==> i.sound is None
            }
        }),
{
}

/// Standing about is silent and on the spot: chilling breathes and never ends of itself, looking
/// around ends after eight seconds; either looks where it last chose to, chilling two fifths as
/// far.
pub proof fn law_standing_about_is_quiet(
    a: Act,
    w: World,
    limits: Limits,
    seed: u64,
    bearing: Option<i64>,
    k: int,
)
    requires
        a.kind is Chill || a.kind is LookAround,
        0 <= k < 4,
        a.head_target.len() == 4,
    ensures
        ({
            let o = a.advanced(w, limits, seed, bearing);
            let head = o.intents.head->0[k].base;
            let to = o.act.head_target[k];
            &&& is_still(o.intents)
            &&& o.intents.sound is None
            &&& asks_nothing(o)
            &&& a.kind is Chill ==> !o.done && rise(o.intents).amp == 3_000_000
            &&& a.kind is LookAround ==> (o.done <==> w.t - a.since > 8_000_000_000)
            &&& a.kind is LookAround ==> head == to && o.intents.pose is None
            &&& a.kind is Chill ==> 5 * head <= 2 * to < 5 * head + 5
            &&& o.act.head_target == a.head_target || o.act.head_at == w.t
        }),
{
}

/// A new look is chosen when the last is old enough: not before the wait is over, and surely
/// when it is over twice.
pub proof fn law_looks_change_now_and_then(
    a: Act,
    w: World,
    limits: Limits,
    seed: u64,
    bearing: Option<i64>,
)
    requires
        a.kind is Chill || a.kind is LookAround,
    ensures
        ({
            let o = a.advanced(w, limits, seed, bearing);
            let wait = if a.kind is Chill {
                3_000_000_000int
            } else {
                1_200_000_000
            };
            &&& w.t - a.head_at <= wait ==> o.act == a
            &&& w.t - a.head_at > 2 * wait ==> o.act.head_at == w.t
        }),
{
    lemma_chance(seed);
    lemma_portion(3_000_000_000, chance(seed));
    lemma_portion(1_200_000_000, chance(seed));
}

/// The head is held so, and does not swing.
pub open spec fn holds(i: Intents, neck: int, pitch: int, yaw: int, roll: int) -> bool {
    &&& i.head matches Some(h)
    &&& h[0] == Level { base: neck as i64, amp: 0, phase: 0 }
    &&& h[1] == Level { base: pitch as i64, amp: 0, phase: 0 }
    &&& h[2] == Level { base: yaw as i64, amp: 0, phase: 0 }
    &&& h[3] == Level { base: roll as i64, amp: 0, phase: 0 }
}

/// The body is held so, and does not swing.
pub open spec fn stands(i: Intents, z: int, roll: int, pitch: int) -> bool {
    &&& i.pose is Some
    &&& rise(i) == Level { base: z as i64, amp: 0, phase: 0 }
    &&& sway(i) == Level { base: roll as i64, amp: 0, phase: 0 }
    &&& lean(i) == Level { base: pitch as i64, amp: 0, phase: 0 }
}

/// A gesture can be told by its posture: each holds the head, the body and the mouth in its own
/// way, and leaves alone what is no part of it.
pub proof fn law_postures_tell_the_gesture(
    a: Act,
    w: World,
    limits: Limits,
    seed: u64,
    bearing: Option<i64>,
)
    ensures
        ({
            let o = a.advanced(w, limits, seed, bearing);
            let i = o.intents;
            let age = w.t - a.since;
            &&& a.kind is Zoomies ==> holds(i, 0, -200_000_000, 0, 0) && i.pose is None && i.mouth
                is None
            &&& a.kind is Stretch ==> holds(i, -300_000_000, -300_000_000, 0, 0) && i.mouth is None
            &&& a.kind is Stretch && age < 1_500_000_000 ==> stands(i, 8_000_000, 0, -200_000_000)
            &&& a.kind is Stretch && age >= 1_500_000_000 ==> stands(i, 0, 0, 0)
            &&& a.kind is Nap ==> holds(i, 600_000_000, 500_000_000, 0, 0) && i.pose is None
                && i.mouth is None
            &&& a.kind is Startle ==> holds(i, -400_000_000, -500_000_000, 0, 0) && i.pose is None
                && i.mouth is None
            &&& a.kind is Petted ==> holds(i, 250_000_000, 350_000_000, 0, 0) && stands(
                i,
                -8_000_000,
                0,
                80_000_000,
            )
            &&& a.kind is Greet ==> holds(i, -200_000_000, -300_000_000, 0, 0) && i.pose is None
                && i.mouth is None
            &&& a.kind is Sneeze && age < 500_000_000 ==> holds(
                i,
                -400_000_000,
                -400_000_000,
                0,
                0,
            ) && i.mouth is None
            &&& a.kind is Sneeze && 500_000_000 <= age < 800_000_000 ==> holds(
                i,
                600_000_000,
                600_000_000,
                0,
                0,
            )
            &&& a.kind is Sneeze && age >= 800_000_000 ==> holds(i, 0, 0, 0, 0) && i.mouth is None
            &&& a.kind is Sneeze ==> i.pose is None
            &&& a.kind is Preen ==> i.pose is None
            &&& a.kind is Preen && a.since as int % 2_000_000_000 < 1_000_000_000 ==> holds(
                i,
                500_000_000,
                600_000_000,
                1_000_000_000,
                300_000_000,
            )
            &&& a.kind is Preen && a.since as int % 2_000_000_000 >= 1_000_000_000 ==> holds(
                i,
                500_000_000,
                600_000_000,
                -1_000_000_000,
                -300_000_000,
            )
            &&& a.kind is GroundPick ==> i.head is None && i.pose is None && i.mouth is None
                && i.sound is None
            &&& a.kind is LookAround ==> i.pose is None && i.mouth is None
            &&& a.kind is Chill ==> i.mouth is None
            &&& a.kind is Wander ==> i.mouth is None && i.head->0[1].base == 150_000_000
                && i.head->0[0].base == 0 && i.head->0[3].base == 0
            &&& a.kind is TurnInPlace ==> i.mouth is None && i.pose is None && i.head->0[1].base
                == 100_000_000 && i.sound is None && i.skill is None
        }),
{
}

/// What swings swings in time: the breath at four fifths of a radian a second, the shake of a
/// ruffle at twelve with the head a quarter ahead, the bill at six or, petted, at three, the look
/// of a lonely duck at one and a fifth, and a dance with the beat.
pub proof fn law_swings_keep_time(
    a: Act,
    w: World,
    limits: Limits,
    seed: u64,
    bearing: Option<i64>,
)
    ensures
        ({
            let i = a.advanced(w, limits, seed, bearing).intents;
            let age = w.t - a.since;
            &&& a.kind is Chill ==> rise(i).base == 0 && rise(i).phase == (4 * age / 5) as i128
            &&& a.kind is Ruffle ==> {
                &&& sway(i).base == 0 && sway(i).phase == (12 * age) as i128
                &&& i.head->0[3] == (Level {
                    base: 0,
                    amp: 250_000_000,
                    phase: (12 * age + 1_570_796_327) as i128,
                })
                &&& i.head->0[2].amp == 0 && i.head->0[2].base == 0
            }
            &&& a.kind is Preen ==> i.mouth == Some(
                Level { base: 300_000_000, amp: 300_000_000, phase: (6 * age) as i128 },
            )
            &&& a.kind is Petted ==> i.mouth == Some(
                Level { base: 75_000_000, amp: 75_000_000, phase: (3 * age) as i128 },
            )
            &&& a.kind is Lonely ==> i.head->0[2] == (Level {
                base: 0,
                amp: 800_000_000,
                phase: (6 * age / 5) as i128,
            }) && i.head->0[1].base == -100_000_000
        }),
        a.kind is Dance ==> (w.beat_gap() matches Some(p) ==> (p > 100_000_000 && w.beats@.len() > 0
            ==> ({
            let i = a.advanced(w, limits, seed, bearing).intents;
            let since = w.t - w.beats@.last();
            let turn = since * 6_283_185_308 / p;
            let half = since * 3_141_592_654 / p;
            &&& rise(i).base == -3_000_000 && sway(i).base == 0
            &&& i.head->0[1].amp == 150_000_000 && i.head->0[1].phase == (turn
                + 1_570_796_327) as i128
            &&& i.head->0[2].amp == 350_000_000 && i.head->0[2].phase == (half
                + 1_570_796_327) as i128
            &&& i.head->0[3].amp == 100_000_000 && i.head->0[3].phase == turn as i128
        }))),
{
}

} // verus!
