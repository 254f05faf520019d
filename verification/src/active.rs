//! A running behaviour: a small state machine that is entered, ticked at the daemon's rate,
//! and says when it is finished.

use vstd::prelude::*;

use crate::behaviours::{head_at, level_head, Intents, Kind, Level, Limits};
use crate::dice::{chance, portion, portion_of, reseeded, reseeded_by, Dice, STEPS};
use crate::heading::{gaze, pick_heading, random_gaze, searched};
use crate::mission::{Mission, Quest};
use crate::proto::{Skill, SoundTag};
use crate::room::points;
use crate::units::{
    floor_div, held, hold, is_long, magnitude, reaches, wrap_wide, wrapped, FRAC_PI_2, NANO, PI,
    TAU,
};
use crate::world::World;

verus! {

/// What stands in for a range where nothing was seen.
pub const CLEAR: i64 = 9_000_000_000;

/// A running behaviour.
pub struct Active {
    pub kind: Kind,
    pub since: i64,
    /// Behaviour-local scalars, sampled on entry.
    pub target_yaw: i64,
    pub head_target: [i64; 4],
    pub head_at: i64,
    pub phase: u32,
    pub fired: bool,
    /// The duck being greeted is a stranger.
    pub stranger: bool,
    /// Wander: the path to the current frontier target, and when it was planned; `None` = no
    /// frontier known, fall back to a novelty heading.
    pub plan: Option<Vec<(i64, i64)>>,
    pub planned_at: Option<i64>,
    /// Maze: the mission.
    pub mission: Mission,
}

/// A running behaviour as values.
#[verifier::ext_equal]
pub ghost struct Act {
    pub kind: Kind,
    pub since: i64,
    pub target_yaw: i64,
    pub head_target: Seq<i64>,
    pub head_at: i64,
    pub phase: u32,
    pub fired: bool,
    pub stranger: bool,
    pub plan: Option<Seq<(int, int)>>,
    pub planned_at: Option<i64>,
    pub mission: Quest,
}

pub open spec fn planned_points(plan: Option<Vec<(i64, i64)>>) -> Option<Seq<(int, int)>> {
    match plan {
        Some(p) => Some(points(p@)),
        None => None,
    }
}

impl View for Active {
    type V = Act;

    open spec fn view(&self) -> Act {
        Act {
            kind: self.kind,
            since: self.since,
            target_yaw: self.target_yaw,
            head_target: self.head_target@,
            head_at: self.head_at,
            phase: self.phase,
            fired: self.fired,
            stranger: self.stranger,
            plan: planned_points(self.plan),
            planned_at: self.planned_at,
            mission: self.mission@,
        }
    }
}

/// What a tick yields.
pub struct Step {
    pub intents: Intents,
    pub done: bool,
}

/// What a tick comes to.
pub ghost struct Outcome {
    pub act: Act,
    pub intents: Intents,
    pub done: bool,
    pub seed: u64,
}

/// How much room there is on a side.
pub open spec fn room_of(range: Option<i64>) -> i64 {
    match range {
        Some(r) => r,
        None => CLEAR,
    }
}

fn room_in(range: Option<i64>) -> (r: i64)
    ensures
        r == room_of(range),
{
    match range {
        Some(r) => r,
        None => CLEAR,
    }
}

/// The heading a turn in place goes for: away from the nearer side, by 1 to 2.6 rad.
pub open spec fn turn_target(w: World, k: int) -> int {
    let turn = 1_000_000_000 + portion(1_600_000_000, k);
    if room_of(w.obstacles.left) >= room_of(w.obstacles.right) {
        wrapped(w.yaw + turn)
    } else {
        wrapped(w.yaw - turn)
    }
}

impl Act {
    /// A behaviour as it is entered, on a generator seeded with `seed`.
    pub open spec fn entered(kind: Kind, w: World, seed: u64) -> Act {
        Act {
            kind,
            since: w.t,
            target_yaw: match kind {
                Kind::Wander => searched(w, seed, 8).yaw as i64,
                Kind::TurnInPlace => turn_target(w, chance(seed)) as i64,
                _ => w.yaw,
            },
            head_target: if kind is LookAround {
                gaze(seed)
            } else {
                seq![0i64, 0, 0, 0]
            },
            head_at: w.t,
            phase: 0,
            fired: false,
            stranger: kind is Greet && (w.greet_pending matches Some(p) && p.1),
            plan: None,
            planned_at: None,
            mission: Quest::start(w),
        }
    }

    /// The seed that entering leaves.
    pub open spec fn seed_entered(kind: Kind, w: World, seed: u64) -> u64 {
        match kind {
            Kind::Wander => searched(w, seed, 8).seed,
            Kind::TurnInPlace => reseeded(seed),
            Kind::LookAround => reseeded_by(seed, 3),
            _ => seed,
        }
    }

    pub open spec fn age(self, w: World) -> int {
        w.t - self.since
    }

    /// The sound of a behaviour that makes one, once.
    pub open spec fn once(self, sound: SoundTag) -> Option<SoundTag> {
        if self.fired {
            None
        } else {
            Some(sound)
        }
    }

    /// The head target after a glance that comes when the last is older than `wait` and up to
    /// as much again by chance.
    pub open spec fn glanced(self, w: World, seed: u64, wait: int) -> (Act, u64) {
        if w.t - self.head_at > wait + portion(wait, chance(seed)) {
            (
                Act { head_target: gaze(reseeded(seed)), head_at: w.t, ..self },
                reseeded_by(reseeded(seed), 3),
            )
        } else {
            (self, reseeded(seed))
        }
    }

    /// Breathe: a slow 3 mm body-pose sway; a glance every few seconds.
    pub open spec fn chill(self, w: World, seed: u64) -> Outcome {
        let (act, next) = self.glanced(w, seed, 3_000_000_000);
        Outcome {
            act,
            intents: Intents {
                pose: Some(
                    (
                        Level { base: 0, amp: 3_000_000, phase: (4 * self.age(w) / 5) as i128 },
                        Level::steady(0),
                        Level::steady(0),
                    ),
                ),
                head: Some(
                    level_head(
                        2 * act.head_target[0] / 5,
                        2 * act.head_target[1] / 5,
                        2 * act.head_target[2] / 5,
                        2 * act.head_target[3] / 5,
                    ),
                ),
                ..Intents::idle()
            },
            done: false,
            seed: next,
        }
    }

    pub open spec fn look_around(self, w: World, seed: u64) -> Outcome {
        let (act, next) = self.glanced(w, seed, 1_200_000_000);
        Outcome {
            act,
            intents: Intents {
                head: Some(
                    level_head(
                        act.head_target[0] as int,
                        act.head_target[1] as int,
                        act.head_target[2] as int,
                        act.head_target[3] as int,
                    ),
                ),
                ..Intents::idle()
            },
            done: self.age(w) > 8_000_000_000,
            seed: next,
        }
    }

    /// Plan anew where the plan is two seconds old: a path over the known floor to the nearest
    /// edge of the unknown.
    pub open spec fn replanned(self, w: World) -> Act {
        if self.planned_at matches Some(t) && w.t - t <= 2_000_000_000 {
            self
        } else {
            Act {
                planned_at: Some(w.t),
                plan: w.room@.frontier_path((w.odom@[0], w.odom@[1]), 500_000_000),
                ..self
            }
        }
    }

    /// From the duck to the point of its path it steers at: the first at least 0.35 m away,
    /// else the last.
    pub open spec fn waypoint(self, w: World) -> Option<(int, int)> {
        match self.plan {
            Some(path) => aim_along(path, w, 0),
            None => None,
        }
    }

    /// Wandering, with the bearing of the waypoint, where there is one. Steering while walking
    /// stays inside ±0.6 rad/s: beyond that the sign of the gait's response is not to be
    /// trusted. Slow down near things; stop and let TurnInPlace win when boxed in. Look where
    /// we go, slightly down: the sensor must keep seeing the floor. Without a path, the heading
    /// is picked anew now and then.
    pub open spec fn wander(
        self,
        w: World,
        limits: Limits,
        seed: u64,
        bearing: Option<i64>,
    ) -> Outcome {
        let target = match bearing {
            Some(b) => b,
            None => self.target_yaw,
        };
        let err = wrapped(target - w.yaw);
        let room = room_of(w.obstacles.center);
        let throws = self.plan is None && self.age(w) > 5_000_000_000;
        let repick = throws && 100 * chance(seed) < STEPS;
        Outcome {
            act: Act {
                target_yaw: if repick {
                    searched(w, reseeded(seed), 8).yaw as i64
                } else {
                    target
                },
                ..self
            },
            intents: Intents {
                twist: [
                    wander_speed(limits, room),
                    0,
                    held(3 * err / 2, -600_000_000, 600_000_000) as i64,
                ],
                head: Some(
                    level_head(
                        0,
                        150_000_000,
                        held(err / 2, -800_000_000, 800_000_000),
                        0,
                    ),
                ),
                ..Intents::idle()
            },
            done: self.age(w) > 40_000_000_000 || room < 350_000_000 && self.age(w)
                > 1_000_000_000,
            seed: if repick {
                searched(w, reseeded(seed), 8).seed
            } else if throws {
                reseeded(seed)
            } else {
                seed
            },
        }
    }

    /// Left in place; right as a tight walking arc (a right turn in place does not start).
    pub open spec fn turn_in_place(self, w: World, limits: Limits, seed: u64) -> Outcome {
        let err = wrapped(self.target_yaw - w.yaw);
        Outcome {
            act: self,
            intents: Intents {
                twist: if err > 0 {
                    [0, 0, limits.angular]
                } else {
                    [limits.linear, 0, (-600_000_000int) as i64]
                },
                head: Some(
                    level_head(
                        0,
                        100_000_000,
                        held(err / 2, -800_000_000, 800_000_000),
                        0,
                    ),
                ),
                ..Intents::idle()
            },
            done: magnitude(err) < 150_000_000 || self.age(w) > 4_000_000_000,
            seed,
        }
    }

    pub open spec fn zoomies(self, w: World, limits: Limits, seed: u64) -> Outcome {
        Outcome {
            act: Act { fired: true, ..self },
            intents: Intents {
                twist: if room_of(w.obstacles.center) > 800_000_000 {
                    [limits.linear, 0, 0]
                } else {
                    [0, 0, limits.angular]
                },
                head: Some(level_head(0, -200_000_000, 0, 0)),
                sound: self.once(SoundTag::Wheee),
                ..Intents::idle()
            },
            done: self.age(w) > 3_500_000_000,
            seed,
        }
    }

    /// Up on tiptoe, head back, a coo, then settle.
    pub open spec fn stretch(self, w: World, seed: u64) -> Outcome {
        let up = self.age(w) < 1_500_000_000;
        Outcome {
            act: Act { fired: true, ..self },
            intents: Intents {
                pose: Some(
                    (
                        Level::steady(
                            if up {
                                8_000_000int
                            } else {
                                0
                            },
                        ),
                        Level::steady(0),
                        Level::steady(
                            if up {
                                -200_000_000
                            } else {
                                0
                            },
                        ),
                    ),
                ),
                head: Some(level_head(-300_000_000, -300_000_000, 0, 0)),
                sound: self.once(SoundTag::Coo),
                ..Intents::idle()
            },
            done: self.age(w) > 3_000_000_000,
            seed,
        }
    }

    /// Shake: a roll that dies down over two and a half seconds, and a chirp.
    pub open spec fn ruffle(self, w: World, seed: u64) -> Outcome {
        let age = self.age(w);
        let left = if age < 2_500_000_000 {
            2_500_000_000 - age
        } else {
            0
        };
        let shake = 12 * age;
        Outcome {
            act: Act { fired: true, ..self },
            intents: Intents {
                pose: Some(
                    (
                        Level::steady(0),
                        Level {
                            base: 0,
                            amp: (6 * left / 125) as i64,
                            phase: shake as i128,
                        },
                        Level::steady(0),
                    ),
                ),
                head: Some(
                    [
                        Level::steady(0),
                        Level::steady(0),
                        Level::steady(0),
                        Level {
                            base: 0,
                            amp: 250_000_000,
                            phase: (shake + FRAC_PI_2) as i128,
                        },
                    ],
                ),
                sound: self.once(SoundTag::Chirp),
                ..Intents::idle()
            },
            done: age > 2_500_000_000,
            seed,
        }
    }

    /// Look under a wing: head down and to one side, a peck, mouth working.
    pub open spec fn preen(self, w: World, seed: u64) -> Outcome {
        let left = self.since as int % 2_000_000_000 < 1_000_000_000;
        Outcome {
            act: Act { fired: true, ..self },
            intents: Intents {
                head: Some(
                    if left {
                        level_head(500_000_000, 600_000_000, 1_000_000_000, 300_000_000)
                    } else {
                        level_head(500_000_000, 600_000_000, -1_000_000_000, -300_000_000)
                    },
                ),
                mouth: Some(
                    Level {
                        base: 300_000_000,
                        amp: 300_000_000,
                        phase: (6 * self.age(w)) as i128,
                    },
                ),
                sound: self.once(SoundTag::Peck),
                ..Intents::idle()
            },
            done: self.age(w) > 3_500_000_000,
            seed,
        }
    }

    pub open spec fn sneeze(self, w: World, seed: u64) -> Outcome {
        let age = self.age(w);
        let out = 500_000_000 <= age < 800_000_000;
        Outcome {
            act: Act { fired: self.fired || out, ..self },
            intents: Intents {
                head: Some(
                    if age < 500_000_000 {
                        level_head(-400_000_000, -400_000_000, 0, 0)
                    } else if out {
                        level_head(600_000_000, 600_000_000, 0, 0)
                    } else {
                        level_head(0, 0, 0, 0)
                    },
                ),
                mouth: if out {
                    Some(Level::steady(1_000_000_000))
                } else {
                    None
                },
                sound: if out {
                    self.once(SoundTag::Peck)
                } else {
                    None
                },
                ..Intents::idle()
            },
            done: age > 1_500_000_000,
            seed,
        }
    }

    /// Sit once, then be still. Waking is the arbiter's job.
    pub open spec fn nap(self, w: World, seed: u64) -> Outcome {
        let sit = !self.fired && w.is_standing();
        Outcome {
            act: Act { fired: self.fired || sit, ..self },
            intents: Intents {
                skill: if sit {
                    Some(Skill::SitToggle)
                } else {
                    None
                },
                head: Some(level_head(600_000_000, 500_000_000, 0, 0)),
                ..Intents::idle()
            },
            done: false,
            seed,
        }
    }

    /// A hop back, then freeze.
    pub open spec fn startle(self, w: World, limits: Limits, seed: u64) -> Outcome {
        Outcome {
            act: Act { fired: true, ..self },
            intents: Intents {
                twist: if self.age(w) < 400_000_000 {
                    [negated(limits.linear), 0, 0]
                } else {
                    [0, 0, 0]
                },
                head: Some(level_head(-400_000_000, -500_000_000, 0, 0)),
                sound: self.once(SoundTag::Alarm),
                ..Intents::idle()
            },
            done: self.age(w) > 1_500_000_000,
            seed,
        }
    }

    /// Lean into the hand: a little lower, head forward and down, a quiet coo.
    pub open spec fn petted(self, w: World, seed: u64) -> Outcome {
        Outcome {
            act: Act { fired: true, ..self },
            intents: Intents {
                pose: Some((Level::steady(-8_000_000), Level::steady(0), Level::steady(80_000_000))),
                head: Some(level_head(250_000_000, 350_000_000, 0, 0)),
                mouth: Some(
                    Level {
                        base: 75_000_000,
                        amp: 75_000_000,
                        phase: (3 * self.age(w)) as i128,
                    },
                ),
                sound: self.once(SoundTag::Coo),
                ..Intents::idle()
            },
            done: w.petting_since is None && (w.pet_ended matches Some(t) && w.t - t
                > 1_000_000_000),
            seed,
        }
    }

    /// Bob and sway on the beat; the phase comes from the last beat heard. Without a steady
    /// beat the dance is over.
    pub open spec fn dance(self, w: World, seed: u64) -> Outcome {
        let act = Act { fired: true, ..self };
        let sound = self.once(SoundTag::Chirp);
        match w.beat_gap() {
            Some(period) => if period > 100_000_000 && w.beats@.len() > 0 {
                let since = w.t - w.beats@.last();
                let phase = since * TAU / period;
                let half = since * PI / period;
                Outcome {
                    act,
                    intents: Intents {
                        pose: Some(
                            (
                                Level { base: (-3_000_000int) as i64, amp: 6_000_000, phase: phase as i128 },
                                Level { base: 0, amp: 120_000_000, phase: half as i128 },
                                Level::steady(0),
                            ),
                        ),
                        head: Some(
                            [
                                Level::steady(0),
                                Level {
                                    base: 0,
                                    amp: 150_000_000,
                                    phase: (phase + FRAC_PI_2) as i128,
                                },
                                Level {
                                    base: 0,
                                    amp: 350_000_000,
                                    phase: (half + FRAC_PI_2) as i128,
                                },
                                Level { base: 0, amp: 100_000_000, phase: phase as i128 },
                            ],
                        ),
                        sound,
                        ..Intents::idle()
                    },
                    done: false,
                    seed,
                }
            } else {
                Outcome { act, intents: Intents { sound, ..Intents::idle() }, done: true, seed }
            },
            None => Outcome { act, intents: Intents { sound, ..Intents::idle() }, done: true, seed },
        }
    }

    /// Head up, a call: one for a stranger, another for a friend.
    pub open spec fn greet(self, w: World, seed: u64) -> Outcome {
        Outcome {
            act: Act { fired: true, ..self },
            intents: Intents {
                head: Some(level_head(-200_000_000, -300_000_000, 0, 0)),
                sound: self.once(
                    if self.stranger {
                        SoundTag::Greet
                    } else {
                        SoundTag::Chirp
                    },
                ),
                ..Intents::idle()
            },
            done: self.age(w) > 2_500_000_000,
            seed,
        }
    }

    pub open spec fn lonely(self, w: World, seed: u64) -> Outcome {
        Outcome {
            act: Act { fired: true, ..self },
            intents: Intents {
                head: Some(
                    [
                        Level::steady(0),
                        Level::steady(-100_000_000),
                        Level {
                            base: 0,
                            amp: 800_000_000,
                            phase: (6 * self.age(w) / 5) as i128,
                        },
                        Level::steady(0),
                    ],
                ),
                sound: self.once(SoundTag::Inquire),
                ..Intents::idle()
            },
            done: self.age(w) > 3_000_000_000,
            seed,
        }
    }

    /// Ask for the skill, wait for it to start, then for the policy to come back. If it never
    /// took, the robot was busy.
    pub open spec fn ground_pick(self, w: World, seed: u64) -> Outcome {
        let picking = w.policy@ == "ground_pick"@;
        Outcome {
            act: Act {
                phase: if self.phase == 0 {
                    1
                } else if self.phase == 1 && picking {
                    2
                } else {
                    self.phase
                },
                ..self
            },
            intents: Intents {
                skill: if self.phase == 0 {
                    Some(Skill::GroundPick)
                } else {
                    None
                },
                ..Intents::idle()
            },
            done: if self.phase == 0 {
                false
            } else if self.phase == 1 {
                !picking && self.age(w) > 2_000_000_000
            } else {
                !picking
            },
            seed,
        }
    }

    pub open spec fn maze(self, w: World, limits: Limits, seed: u64) -> Outcome {
        let leg = self.mission.step(w, limits);
        Outcome {
            act: Act { mission: leg.quest, ..self },
            intents: leg.intents,
            done: leg.done,
            seed,
        }
    }

    /// A tick of the behaviour, with the bearing of Wander's waypoint, where there is one.
    pub open spec fn advanced(
        self,
        w: World,
        limits: Limits,
        seed: u64,
        bearing: Option<i64>,
    ) -> Outcome {
        match self.kind {
            Kind::Chill => self.chill(w, seed),
            Kind::LookAround => self.look_around(w, seed),
            Kind::Wander => self.wander(w, limits, seed, bearing),
            Kind::TurnInPlace => self.turn_in_place(w, limits, seed),
            Kind::Zoomies => self.zoomies(w, limits, seed),
            Kind::Stretch => self.stretch(w, seed),
            Kind::Ruffle => self.ruffle(w, seed),
            Kind::Preen => self.preen(w, seed),
            Kind::Sneeze => self.sneeze(w, seed),
            Kind::Nap => self.nap(w, seed),
            Kind::Startle => self.startle(w, limits, seed),
            Kind::GroundPick => self.ground_pick(w, seed),
            Kind::Maze => self.maze(w, limits, seed),
            Kind::Petted => self.petted(w, seed),
            Kind::Dance => self.dance(w, seed),
            Kind::Greet => self.greet(w, seed),
            Kind::Lonely => self.lonely(w, seed),
        }
    }

    /// Before a tick: Wander plans anew where it is time; the others have nothing to plan.
    pub open spec fn readied(self, w: World) -> Act {
        if self.kind is Wander {
            self.replanned(w)
        } else {
            self
        }
    }

    /// Where a tick has to know the bearing of: Wander's waypoint, from the duck.
    pub open spec fn sights(self, w: World) -> Option<(int, int)> {
        if self.kind is Wander {
            self.readied(w).waypoint(w)
        } else {
            None
        }
    }
}

/// The point of `path` from `k` on that is steered at, from the duck: the first at least
/// 0.35 m away, else the last.
pub open spec fn aim_along(path: Seq<(int, int)>, w: World, k: nat) -> Option<(int, int)>
    decreases path.len() - k,
{
    if path.len() == 0 {
        None
    } else if k >= path.len() {
        Some((path.last().0 - w.odom@[0], path.last().1 - w.odom@[1]))
    } else {
        let d = (path[k as int].0 - w.odom@[0], path[k as int].1 - w.odom@[1]);
        if reaches(d.0, d.1, 350_000_000) {
            Some(d)
        } else {
            aim_along(path, w, k + 1)
        }
    }
}

/// Wander's speed with so much room ahead.
pub open spec fn wander_speed(limits: Limits, room: i64) -> i64 {
    if room < 350_000_000 {
        0
    } else if room < 700_000_000 {
        (limits.linear as int / 2) as i64
    } else {
        limits.linear
    }
}

/// Backwards, as far as 64 bits go.
pub open spec fn negated(v: i64) -> i64 {
    held(-v, i64::MIN as int, i64::MAX as int) as i64
}

impl Active {
    /// The mission, where there is one, can take another step.
    pub open spec fn is_sound(self) -> bool {
        self.mission.is_sound()
    }

    /// Start a behaviour.
    pub fn enter(kind: Kind, w: &World, rng: &mut Dice) -> (a: Self)
        ensures
            a@ == Act::entered(kind, *w, old(rng).seed),
            final(rng).seed == Act::seed_entered(kind, *w, old(rng).seed),
            a.is_sound(),
            a.mission.map.moves == 0,
    {
        let mut a = Active {
            kind,
            since: w.t,
            target_yaw: w.yaw,
            head_target: [0, 0, 0, 0],
            head_at: w.t,
            phase: 0,
            fired: false,
            stranger: false,
            plan: None,
            planned_at: None,
            mission: Mission::new(w),
        };
        proof {
            assert(a.head_target@ =~= seq![0i64, 0, 0, 0]);
        }
        match kind {
            Kind::Wander => {
                a.target_yaw = pick_heading(w, rng);
            },
            Kind::TurnInPlace => {
                // Turn away from the nearer side; a random amount between 60° and 150°.
                let turn: i64 = 1_000_000_000 + portion_of(1_600_000_000, rng.fraction());
                a.target_yaw =
                if room_in(w.obstacles.left) >= room_in(w.obstacles.right) {
                    wrap_wide(w.yaw as i128 + turn as i128)
                } else {
                    wrap_wide(w.yaw as i128 - turn as i128)
                };
            },
            Kind::LookAround => {
                a.head_target = random_gaze(rng);
            },
            Kind::Greet => {
                a.stranger =
                match w.greet_pending {
                    Some((id, stranger)) => stranger,
                    None => false,
                };
            },
            _ => {},
        }
        a
    }

    /// The exit intent: everything to neutral, twist zero. Sent once on leaving.
    pub fn neutral() -> (i: Intents)
        ensures
            i == Intents::rest(),
    {
        let flat = Level::flat(0);
        Intents {
            twist: [0, 0, 0],
            head: Some(head_at(0, 0, 0, 0)),
            pose: Some((flat, flat, flat)),
            skill: None,
            sound: None,
            mouth: Some(flat),
        }
    }

    fn age_of(&self, w: &World) -> (a: i128)
        ensures
            a == self@.age(*w),
            -0x1_0000_0000_0000_0000 <= a <= 0x1_0000_0000_0000_0000,
    {
        w.t as i128 - self.since as i128
    }

    fn fire(&mut self, sound: SoundTag) -> (s: Option<SoundTag>)
        ensures
            final(self)@ == (Act { fired: true, ..old(self)@ }),
            s == old(self)@.once(sound),
            final(self).mission == old(self).mission,
    {
        let s = if self.fired {
            None
        } else {
            Some(sound)
        };
        self.fired = true;
        s
    }

    fn glance(&mut self, w: &World, rng: &mut Dice, wait: i64)
        requires
            0 <= wait <= NANO * 10,
        ensures
            final(self)@ == old(self)@.glanced(*w, old(rng).seed, wait as int).0,
            final(rng).seed == old(self)@.glanced(*w, old(rng).seed, wait as int).1,
            final(self).mission == old(self).mission,
    {
        let patience: i64 = wait + portion_of(wait, rng.fraction());
        if w.t as i128 - self.head_at as i128 > patience as i128 {
            self.head_target = random_gaze(rng);
            self.head_at = w.t;
        }
    }

    fn chill_tick(&mut self, w: &World, rng: &mut Dice) -> (i: Intents)
        ensures
            final(self)@ == old(self)@.chill(*w, old(rng).seed).act,
            final(rng).seed == old(self)@.chill(*w, old(rng).seed).seed,
            i == old(self)@.chill(*w, old(rng).seed).intents,
            final(self).mission == old(self).mission,
    {
        let age: i128 = self.age_of(w);
        self.glance(w, rng, 3_000_000_000);
        let h = self.head_target;
        let mut i = Intents::default();
        i.pose =
        Some(
            (
                Level { base: 0, amp: 3_000_000, phase: floor_div(4 * age, 5) },
                Level::flat(0),
                Level::flat(0),
            ),
        );
        i.head =
        Some(
            head_at(
                floor_div(2 * h[0] as i128, 5) as i64,
                floor_div(2 * h[1] as i128, 5) as i64,
                floor_div(2 * h[2] as i128, 5) as i64,
                floor_div(2 * h[3] as i128, 5) as i64,
            ),
        );
        i
    }

    fn look_tick(&mut self, w: &World, rng: &mut Dice) -> (i: Intents)
        ensures
            final(self)@ == old(self)@.look_around(*w, old(rng).seed).act,
            final(rng).seed == old(self)@.look_around(*w, old(rng).seed).seed,
            i == old(self)@.look_around(*w, old(rng).seed).intents,
            final(self).mission == old(self).mission,
    {
        self.glance(w, rng, 1_200_000_000);
        let h = self.head_target;
        let mut i = Intents::default();
        i.head = Some(head_at(h[0], h[1], h[2], h[3]));
        i
    }

    fn wander_tick(&mut self, w: &World, limits: Limits, rng: &mut Dice, bearing: Option<i64>) -> (s:
        Step)
        ensures
            final(self)@ == old(self)@.wander(*w, limits, old(rng).seed, bearing).act,
            final(rng).seed == old(self)@.wander(*w, limits, old(rng).seed, bearing).seed,
            s.intents == old(self)@.wander(*w, limits, old(rng).seed, bearing).intents,
            s.done == old(self)@.wander(*w, limits, old(rng).seed, bearing).done,
            final(self).mission == old(self).mission,
    {
        let age: i128 = self.age_of(w);
        if let Some(b) = bearing {
            self.target_yaw = b;
        }
        let err: i64 = wrap_wide(self.target_yaw as i128 - w.yaw as i128);
        let steer: i64 = hold(floor_div(3 * err as i128, 2), -600_000_000, 600_000_000);
        let room: i64 = room_in(w.obstacles.center);
        let speed: i64 = if room < 350_000_000 {
            0
        } else if room < 700_000_000 {
            floor_div(limits.linear as i128, 2) as i64
        } else {
            limits.linear
        };
        let mut i = Intents::default();
        i.twist = [speed, 0, steer];
        i.head =
        Some(
            head_at(
                0,
                150_000_000,
                hold(floor_div(err as i128, 2), -800_000_000, 800_000_000),
                0,
            ),
        );
        if self.plan.is_none() && age > 5_000_000_000 {
            if 100 * rng.fraction() < STEPS {
                self.target_yaw = pick_heading(w, rng);
            }
        }
        let done: bool = age > 40_000_000_000 || (room < 350_000_000 && age > 1_000_000_000);
        Step { intents: i, done }
    }

    fn turn_tick(&mut self, w: &World, limits: Limits) -> (s: Step)
        ensures
            final(self)@ == old(self)@,
            s.intents == old(self)@.turn_in_place(*w, limits, 0).intents,
            s.done == old(self)@.turn_in_place(*w, limits, 0).done,
            final(self).mission == old(self).mission,
    {
        let err: i64 = wrap_wide(self.target_yaw as i128 - w.yaw as i128);
        let mut i = Intents::default();
        i.twist =
        if err > 0 {
            [0, 0, limits.angular]
        } else {
            [limits.linear, 0, -600_000_000]
        };
        i.head =
        Some(
            head_at(
                0,
                100_000_000,
                hold(floor_div(err as i128, 2), -800_000_000, 800_000_000),
                0,
            ),
        );
        let done: bool = (err < 150_000_000 && err > -150_000_000) || self.age_of(w)
            > 4_000_000_000;
        Step { intents: i, done }
    }

    fn zoomies_tick(&mut self, w: &World, limits: Limits) -> (s: Step)
        ensures
            final(self)@ == old(self)@.zoomies(*w, limits, 0).act,
            s.intents == old(self)@.zoomies(*w, limits, 0).intents,
            s.done == old(self)@.zoomies(*w, limits, 0).done,
            final(self).mission == old(self).mission,
    {
        let mut i = Intents::default();
        i.twist =
        if room_in(w.obstacles.center) > 800_000_000 {
            [limits.linear, 0, 0]
        } else {
            [0, 0, limits.angular]
        };
        i.head = Some(head_at(0, -200_000_000, 0, 0));
        i.sound = self.fire(SoundTag::Wheee);
        let done: bool = self.age_of(w) > 3_500_000_000;
        Step { intents: i, done }
    }

    fn stretch_tick(&mut self, w: &World) -> (s: Step)
        ensures
            final(self)@ == old(self)@.stretch(*w, 0).act,
            s.intents == old(self)@.stretch(*w, 0).intents,
            s.done == old(self)@.stretch(*w, 0).done,
            final(self).mission == old(self).mission,
    {
        let age: i128 = self.age_of(w);
        let (z, pitch): (i64, i64) = if age < 1_500_000_000 {
            (8_000_000, -200_000_000)
        } else {
            (0, 0)
        };
        let mut i = Intents::default();
        i.pose = Some((Level::flat(z), Level::flat(0), Level::flat(pitch)));
        i.head = Some(head_at(-300_000_000, -300_000_000, 0, 0));
        i.sound = self.fire(SoundTag::Coo);
        Step { intents: i, done: age > 3_000_000_000 }
    }

    fn ruffle_tick(&mut self, w: &World) -> (s: Step)
        ensures
            final(self)@ == old(self)@.ruffle(*w, 0).act,
            s.intents == old(self)@.ruffle(*w, 0).intents,
            s.done == old(self)@.ruffle(*w, 0).done,
            final(self).mission == old(self).mission,
    {
        let age: i128 = self.age_of(w);
        let left: i128 = if age < 2_500_000_000 {
            2_500_000_000 - age
        } else {
            0
        };
        let shake: i128 = 12 * age;
        let roll = Level { base: 0, amp: (6 * left / 125) as i64, phase: shake };
        let nod = Level { base: 0, amp: 250_000_000, phase: shake + FRAC_PI_2 as i128 };
        let mut i = Intents::default();
        i.pose = Some((Level::flat(0), roll, Level::flat(0)));
        i.head = Some([Level::flat(0), Level::flat(0), Level::flat(0), nod]);
        i.sound = self.fire(SoundTag::Chirp);
        Step { intents: i, done: age > 2_500_000_000 }
    }

    fn preen_tick(&mut self, w: &World) -> (s: Step)
        ensures
            final(self)@ == old(self)@.preen(*w, 0).act,
            s.intents == old(self)@.preen(*w, 0).intents,
            s.done == old(self)@.preen(*w, 0).done,
            final(self).mission == old(self).mission,
    {
        let age: i128 = self.age_of(w);
        let turn: i128 = self.since as i128 - floor_div(self.since as i128, 2_000_000_000)
            * 2_000_000_000;
        let mut i = Intents::default();
        i.head =
        Some(
            if turn < 1_000_000_000 {
                head_at(500_000_000, 600_000_000, 1_000_000_000, 300_000_000)
            } else {
                head_at(500_000_000, 600_000_000, -1_000_000_000, -300_000_000)
            },
        );
        i.mouth = Some(Level { base: 300_000_000, amp: 300_000_000, phase: 6 * age });
        i.sound = self.fire(SoundTag::Peck);
        Step { intents: i, done: age > 3_500_000_000 }
    }

    fn sneeze_tick(&mut self, w: &World) -> (s: Step)
        ensures
            final(self)@ == old(self)@.sneeze(*w, 0).act,
            s.intents == old(self)@.sneeze(*w, 0).intents,
            s.done == old(self)@.sneeze(*w, 0).done,
            final(self).mission == old(self).mission,
    {
        let age: i128 = self.age_of(w);
        let mut i = Intents::default();
        if age < 500_000_000 {
            i.head = Some(head_at(-400_000_000, -400_000_000, 0, 0));
        } else if age < 800_000_000 {
            i.head = Some(head_at(600_000_000, 600_000_000, 0, 0));
            i.mouth = Some(Level::flat(1_000_000_000));
            i.sound = self.fire(SoundTag::Peck);
        } else {
            i.head = Some(head_at(0, 0, 0, 0));
        }
        Step { intents: i, done: age > 1_500_000_000 }
    }

    fn nap_tick(&mut self, w: &World) -> (i: Intents)
        ensures
            final(self)@ == old(self)@.nap(*w, 0).act,
            i == old(self)@.nap(*w, 0).intents,
            final(self).mission == old(self).mission,
    {
        let mut i = Intents::default();
        if !self.fired && w.standing() {
            i.skill = Some(Skill::SitToggle);
            self.fired = true;
        }
        i.head = Some(head_at(600_000_000, 500_000_000, 0, 0));
        i
    }

    fn startle_tick(&mut self, w: &World, limits: Limits) -> (s: Step)
        ensures
            final(self)@ == old(self)@.startle(*w, limits, 0).act,
            s.intents == old(self)@.startle(*w, limits, 0).intents,
            s.done == old(self)@.startle(*w, limits, 0).done,
            final(self).mission == old(self).mission,
    {
        let age: i128 = self.age_of(w);
        let mut i = Intents::default();
        i.head = Some(head_at(-400_000_000, -500_000_000, 0, 0));
        i.sound = self.fire(SoundTag::Alarm);
        if age < 400_000_000 {
            i.twist = [hold(-(limits.linear as i128), i64::MIN, i64::MAX), 0, 0];
        }
        Step { intents: i, done: age > 1_500_000_000 }
    }

    fn petted_tick(&mut self, w: &World) -> (s: Step)
        ensures
            final(self)@ == old(self)@.petted(*w, 0).act,
            s.intents == old(self)@.petted(*w, 0).intents,
            s.done == old(self)@.petted(*w, 0).done,
            final(self).mission == old(self).mission,
    {
        let age: i128 = self.age_of(w);
        let mut i = Intents::default();
        i.pose = Some((Level::flat(-8_000_000), Level::flat(0), Level::flat(80_000_000)));
        i.head = Some(head_at(250_000_000, 350_000_000, 0, 0));
        i.mouth = Some(Level { base: 75_000_000, amp: 75_000_000, phase: 3 * age });
        i.sound = self.fire(SoundTag::Coo);
        let over: bool = match w.pet_ended {
            Some(t) => w.t as i128 - t as i128 > 1_000_000_000,
            None => false,
        };
        Step { intents: i, done: !w.petting() && over }
    }

    fn dance_tick(&mut self, w: &World) -> (s: Step)
        ensures
            final(self)@ == old(self)@.dance(*w, 0).act,
            s.intents == old(self)@.dance(*w, 0).intents,
            s.done == old(self)@.dance(*w, 0).done,
            final(self).mission == old(self).mission,
    {
        let mut i = Intents::default();
        let mut done: bool = true;
        let n: usize = w.beats.len();
        if let Some(period) = w.beat_period() {
            if period > 100_000_000 && n > 0 {
                let since: i128 = w.t as i128 - w.beats[n - 1] as i128;
                proof {
                    lemma_phase_fits(since as int, TAU as int, period as int);
                    lemma_phase_fits(since as int, PI as int, period as int);
                }
                let phase: i128 = floor_div(since * TAU as i128, period);
                let half: i128 = floor_div(since * PI as i128, period);
                let quarter: i128 = FRAC_PI_2 as i128;
                i.pose =
                Some(
                    (
                        Level { base: -3_000_000, amp: 6_000_000, phase },
                        Level { base: 0, amp: 120_000_000, phase: half },
                        Level::flat(0),
                    ),
                );
                i.head =
                Some(
                    [
                        Level::flat(0),
                        Level { base: 0, amp: 150_000_000, phase: phase + quarter },
                        Level { base: 0, amp: 350_000_000, phase: half + quarter },
                        Level { base: 0, amp: 100_000_000, phase },
                    ],
                );
                done = false;
            }
        }
        i.sound = self.fire(SoundTag::Chirp);
        Step { intents: i, done }
    }

    fn greet_tick(&mut self, w: &World) -> (s: Step)
        ensures
            final(self)@ == old(self)@.greet(*w, 0).act,
            s.intents == old(self)@.greet(*w, 0).intents,
            s.done == old(self)@.greet(*w, 0).done,
            final(self).mission == old(self).mission,
    {
        let mut i = Intents::default();
        i.head = Some(head_at(-200_000_000, -300_000_000, 0, 0));
        let call = if self.stranger {
            SoundTag::Greet
        } else {
            SoundTag::Chirp
        };
        i.sound = self.fire(call);
        let done: bool = self.age_of(w) > 2_500_000_000;
        Step { intents: i, done }
    }

    fn lonely_tick(&mut self, w: &World) -> (s: Step)
        ensures
            final(self)@ == old(self)@.lonely(*w, 0).act,
            s.intents == old(self)@.lonely(*w, 0).intents,
            s.done == old(self)@.lonely(*w, 0).done,
            final(self).mission == old(self).mission,
    {
        let age: i128 = self.age_of(w);
        let mut i = Intents::default();
        let sweep = Level { base: 0, amp: 800_000_000, phase: floor_div(6 * age, 5) };
        i.head = Some([Level::flat(0), Level::flat(-100_000_000), sweep, Level::flat(0)]);
        i.sound = self.fire(SoundTag::Inquire);
        Step { intents: i, done: age > 3_000_000_000 }
    }

    fn pick_tick(&mut self, w: &World) -> (s: Step)
        ensures
            final(self)@ == old(self)@.ground_pick(*w, 0).act,
            s.intents == old(self)@.ground_pick(*w, 0).intents,
            s.done == old(self)@.ground_pick(*w, 0).done,
            final(self).mission == old(self).mission,
    {
        let picking: bool = w.driven_by("ground_pick");
        let mut i = Intents::default();
        let mut done: bool = false;
        if self.phase == 0 {
            i.skill = Some(Skill::GroundPick);
            self.phase = 1;
        } else if self.phase == 1 {
            // Wait for the skill to start, then for the policy to come back.
            if picking {
                self.phase = 2;
            } else if self.age_of(w) > 2_000_000_000 {
                done = true;  // it never took: the robot was busy
            }
        } else {
            done = !picking;
        }
        Step { intents: i, done }
    }
}

proof fn lemma_phase_fits(since: int, turn: int, period: int)
    requires
        -0x1_0000_0000_0000_0000 <= since <= 0x1_0000_0000_0000_0000,
        0 <= turn <= 0x2_0000_0000,
        period > 1,
    ensures
        -0x2_0000_0000 * 0x1_0000_0000_0000_0000 <= since * turn <= 0x2_0000_0000
            * 0x1_0000_0000_0000_0000,
        -0x2_0000_0000 * 0x1_0000_0000_0000_0000 <= since * turn / period <= 0x2_0000_0000
            * 0x1_0000_0000_0000_0000,
{
    assert(-0x2_0000_0000 * 0x1_0000_0000_0000_0000 <= since * turn <= 0x2_0000_0000
        * 0x1_0000_0000_0000_0000) by (nonlinear_arith)
        requires
            -0x1_0000_0000_0000_0000 <= since <= 0x1_0000_0000_0000_0000,
            0 <= turn <= 0x2_0000_0000,
    ;
    let x = since * turn;
    assert(-0x2_0000_0000 * 0x1_0000_0000_0000_0000 <= x / period <= 0x2_0000_0000
        * 0x1_0000_0000_0000_0000) by (nonlinear_arith)
        requires
            -0x2_0000_0000 * 0x1_0000_0000_0000_0000 <= x <= 0x2_0000_0000
                * 0x1_0000_0000_0000_0000,
            period > 1,
    ;
}

/// From the duck to the point of a path it steers at.
fn aim(path: &Vec<(i64, i64)>, w: &World) -> (d: Option<(i128, i128)>)
    ensures
        match d {
            Some(d) => aim_along(points(path@), *w, 0) == Some((d.0 as int, d.1 as int)),
            None => aim_along(points(path@), *w, 0) is None,
        },
{
    let n: usize = path.len();
    if n == 0 {
        return None;
    }
    let (x, y): (i128, i128) = (w.odom[0] as i128, w.odom[1] as i128);
    let ghost all = points(path@);
    let mut k: usize = 0;
    while k < n
        invariant
            n == path.len(),
            n > 0,
            k <= n,
            all == points(path@),
            x == w.odom@[0],
            y == w.odom@[1],
            aim_along(all, *w, 0) == aim_along(all, *w, k as nat),
        decreases n - k,
    {
        let p = path[k];
        let (dx, dy): (i128, i128) = (p.0 as i128 - x, p.1 as i128 - y);
        assert(all[k as int] == (p.0 as int, p.1 as int));
        if is_long(dx, dy, 350_000_000) {
            return Some((dx, dy));
        }
        k += 1;
    }
    let p = path[n - 1];
    assert(all.last() == (p.0 as int, p.1 as int));
    Some((p.0 as i128 - x, p.1 as i128 - y))
}

impl Active {
    /// Before a tick: Wander plans anew where it is time, and says where its waypoint is from
    /// the duck. The others have nothing to plan.
    pub fn ready(&mut self, w: &World) -> (d: Option<(i128, i128)>)
        ensures
            final(self)@ == old(self)@.readied(*w),
            match d {
                Some(d) => old(self)@.sights(*w) == Some((d.0 as int, d.1 as int)),
                None => old(self)@.sights(*w) is None,
            },
            final(self).mission == old(self).mission,
    {
        if self.kind != Kind::Wander {
            return None;
        }
        let current: bool = match self.planned_at {
            Some(t) => w.t as i128 - t as i128 <= 2_000_000_000,
            None => false,
        };
        if !current {
            self.planned_at = Some(w.t);
            self.plan = w.room.path_to_frontier((w.odom[0], w.odom[1]), 500_000_000);
        }
        match &self.plan {
            Some(path) => aim(path, w),
            None => None,
        }
    }

    /// A tick, with the bearing of Wander's waypoint, where there is one.
    pub fn advance(&mut self, w: &World, limits: Limits, rng: &mut Dice, bearing: Option<i64>) -> (s:
        Step)
        requires
            old(self).is_sound(),
            old(self).mission.map.moves < u32::MAX - 1,
        ensures
            final(self)@ == old(self)@.advanced(*w, limits, old(rng).seed, bearing).act,
            final(rng).seed == old(self)@.advanced(*w, limits, old(rng).seed, bearing).seed,
            s.intents == old(self)@.advanced(*w, limits, old(rng).seed, bearing).intents,
            s.done == old(self)@.advanced(*w, limits, old(rng).seed, bearing).done,
            final(self).is_sound(),
            final(self).mission.map.moves <= old(self).mission.map.moves + 1,
    {
        match self.kind {
            Kind::Chill => {
                let i = self.chill_tick(w, rng);
                Step { intents: i, done: false }
            },
            Kind::LookAround => {
                let i = self.look_tick(w, rng);
                let done: bool = self.age_of(w) > 8_000_000_000;
                Step { intents: i, done }
            },
            Kind::Wander => self.wander_tick(w, limits, rng, bearing),
            Kind::TurnInPlace => self.turn_tick(w, limits),
            Kind::Zoomies => self.zoomies_tick(w, limits),
            Kind::Stretch => self.stretch_tick(w),
            Kind::Ruffle => self.ruffle_tick(w),
            Kind::Preen => self.preen_tick(w),
            Kind::Sneeze => self.sneeze_tick(w),
            Kind::Nap => {
                let i = self.nap_tick(w);
                Step { intents: i, done: false }
            },
            Kind::Startle => self.startle_tick(w, limits),
            Kind::Petted => self.petted_tick(w),
            Kind::Dance => self.dance_tick(w),
            Kind::Greet => self.greet_tick(w),
            Kind::Lonely => self.lonely_tick(w),
            Kind::Maze => {
                let (i, done) = self.mission.step(w, limits);
                Step { intents: i, done }
            },
            Kind::GroundPick => self.pick_tick(w),
        }
    }

    /// A tick. `bearing` gives the direction of a point from its offsets, ahead last.
    pub fn tick<F: Fn(i128, i128) -> i64>(
        &mut self,
        w: &World,
        limits: Limits,
        rng: &mut Dice,
        bearing: &F,
    ) -> (s: Step)
        requires
            old(self).is_sound(),
            old(self).mission.map.moves < u32::MAX - 1,
            forall|dy: i128, dx: i128| #[trigger] call_requires(*bearing, (dy, dx)),
        ensures
            exists|b: Option<i64>|
                {
                    &&& #[trigger] is_bearing(*bearing, old(self)@.sights(*w), b)
                    &&& ({
                        let o = old(self)@.readied(*w).advanced(*w, limits, old(rng).seed, b);
                        &&& final(self)@ == o.act
                        &&& final(rng).seed == o.seed
                        &&& s.intents == o.intents
                        &&& s.done == o.done
                    })
                },
            final(self).is_sound(),
            final(self).mission.map.moves <= old(self).mission.map.moves + 1,
    {
        let b: Option<i64> = match self.ready(w) {
            Some((dx, dy)) => Some(bearing(dy, dx)),
            None => None,
        };
        assert(is_bearing(*bearing, old(self)@.sights(*w), b));
        self.advance(w, limits, rng, b)
    }
}

/// `b` is what `bearing` gives for the point sighted, or nothing where none is.
pub open spec fn is_bearing<F: Fn(i128, i128) -> i64>(
    bearing: F,
    sighted: Option<(int, int)>,
    b: Option<i64>,
) -> bool {
    match sighted {
        Some(p) => b matches Some(v) && call_ensures(bearing, (p.1 as i128, p.0 as i128), v),
        None => b is None,
    }
}

} // verus!
