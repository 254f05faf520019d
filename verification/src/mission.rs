//! The maze mission: localise on the grid, ask the explorer what it wants (a glance at an
//! unknown side, a move to an unvisited neighbour, a backtrack, or the exit) and carry it out.

use vstd::prelude::*;

use crate::behaviours::{head_at, level_head, Intents, Limits};
use crate::maze::{
    axis_yaw, beyond, heading, snapped, turned, Dir, Maze, MazeMap, Plan, Side, CELL_M,
};
use crate::proto::SoundTag;
use crate::sparse::place;
use crate::units::{
    fit, fitted, floor_div, held, hold, is_long, magnitude, reaches, rounded, wrap_wide, wrapped,
    FRAC_PI_2,
};
use crate::world::{Radar, World, TOF_REACH_M};

verus! {

/// Head yaw of a glance to the side: the edge of the head's range.
pub const GLANCE: i64 = 1_400_000_000;

/// Head slew and a few depth frames.
pub const SETTLE_S: i64 = 900_000_000;

/// Sides this deep, two of them: open country, we are out.
pub const OUT_M: i64 = 2_500_000_000;

/// The yaw rate the gait turns left at.
pub const TURN_RATE: i64 = 1_000_000_000;

/// With forward speed: a right turn that works.
pub const RIGHT_ARC_RATE: i64 = 600_000_000;

/// What stands in for a range where nothing was seen.
pub const NOTHING: i64 = 9_000_000_000;

/// What the mission is doing.
#[derive(Debug, Clone, Copy, PartialEq, Eq, Structural)]
pub enum Phase {
    Planning,
    Glancing,
    Turning,
    /// One cell.
    Walking,
}

/// A mission part way through.
pub struct Mission {
    pub map: MazeMap,
    pub phase: Phase,
    pub phase_since: i64,
    pub target_yaw: i64,
    /// Correction added to odometry, learned from walls: a wall of this cell seen at range
    /// r must be at the cell's edge, so the difference is odometry drift along that axis.
    pub odom_fix: (i64, i64),
    pub stucks: u32,
    /// Walk phase: when the odometry was last checked and where it was then.
    pub checked_at: i64,
    pub checked: (i64, i64),
    /// Whether a gait kick has been given.
    pub kicked: bool,
    pub retries: u32,
    /// Since when the level beam straight ahead has read under 0.3 m.
    pub blocked_since: Option<i64>,
    /// What we are looking at, or heading for.
    pub look: Option<Dir>,
    pub go: Option<Dir>,
    pub exiting: bool,
    /// How many sides of the current cell looked like open country.
    pub deep_sides: u32,
    /// How many moves had been made when the walls were last forgotten for going in circles.
    pub forgot_at: Option<u32>,
}

/// A mission as values.
#[verifier::ext_equal]
pub ghost struct Quest {
    pub map: Maze,
    pub phase: Phase,
    pub phase_since: i64,
    pub target_yaw: i64,
    pub odom_fix: (i64, i64),
    pub stucks: u32,
    pub checked_at: i64,
    pub checked: (i64, i64),
    pub kicked: bool,
    pub retries: u32,
    pub blocked_since: Option<i64>,
    pub look: Option<Dir>,
    pub go: Option<Dir>,
    pub exiting: bool,
    pub deep_sides: u32,
    pub forgot_at: Option<u32>,
}

impl View for Mission {
    type V = Quest;

    open spec fn view(&self) -> Quest {
        Quest {
            map: self.map@,
            phase: self.phase,
            phase_since: self.phase_since,
            target_yaw: self.target_yaw,
            odom_fix: self.odom_fix,
            stucks: self.stucks,
            checked_at: self.checked_at,
            checked: self.checked,
            kicked: self.kicked,
            retries: self.retries,
            blocked_since: self.blocked_since,
            look: self.look,
            go: self.go,
            exiting: self.exiting,
            deep_sides: self.deep_sides,
            forgot_at: self.forgot_at,
        }
    }
}

/// What a step of the mission comes to.
pub ghost struct Leg {
    pub quest: Quest,
    pub intents: Intents,
    pub done: bool,
}

/// From the duck to the edge of its current cell in direction `d`, given odometry. Positive
/// inside the cell; the wall (or opening) of this cell lies at exactly this range, the next
/// cell beyond it.
pub open spec fn edge_range(m: Maze, d: Dir, pos: (int, int)) -> int {
    match d {
        Dir::East => m.at.0 * CELL_M + CELL_M / 2 - pos.0,
        Dir::West => pos.0 - m.at.0 * CELL_M + CELL_M / 2,
        Dir::North => m.at.1 * CELL_M + CELL_M / 2 - pos.1,
        Dir::South => pos.1 - m.at.1 * CELL_M + CELL_M / 2,
    }
}

/// Odometry snapped to the grid, the heading to the nearest axis.
pub open spec fn localised(m: Maze, pos: (int, int), yaw: int) -> Maze {
    Maze {
        at: (snapped(pos.0), snapped(pos.1)),
        facing: heading(rounded(yaw, FRAC_PI_2 as int)),
        ..m
    }
}

/// The radar bin a glance in direction `d` is read from: the perpendicular bin alone to the
/// sides, since the diagonal bin sees down the next corridor across a corner and calls a wall
/// an opening; the centre bin alone ahead, since the wider bins hold the corridor's own walls.
pub open spec fn glance_bin(m: Maze, d: Dir) -> int {
    if d == turned(m.facing, 1) {
        6
    } else if d == turned(m.facing, 3) {
        0
    } else {
        3
    }
}

/// What a glance reads: how deep the bin goes, and what stands straight along it.
pub open spec fn reading(w: World, bin: int) -> (int, Option<i64>) {
    (
        if w.radar.far@[bin] > 0 {
            w.radar.far@[bin] as int
        } else {
            0
        },
        w.radar.axis@[bin],
    )
}

/// What a fresh reading makes of a side whose edge is `edge` away: nothing at all within the
/// sensor's reach is the outside; seeing past this cell's edge into the next cell is an
/// opening; anything else is a wall.
pub open spec fn judged(deep: int, near: Option<i64>, edge: int) -> Side {
    if near is None && deep >= TOF_REACH_M - 10_000_000 {
        Side::Outside
    } else if (near matches Some(n) ==> n > edge + 300_000_000) && deep > edge + 450_000_000 {
        Side::Open
    } else {
        Side::Wall
    }
}

impl Quest {
    /// Where the duck is, odometry corrected.
    pub open spec fn pos(self, w: World) -> (int, int) {
        (fitted(w.odom@[0] + self.odom_fix.0), fitted(w.odom@[1] + self.odom_fix.1))
    }

    pub open spec fn enter(self, w: World, phase: Phase) -> Quest {
        Quest { phase, phase_since: w.t, ..self }
    }

    /// At the start of a mission.
    pub open spec fn start(w: World) -> Quest {
        Quest {
            map: Maze::entrance(),
            phase: Phase::Planning,
            phase_since: w.t,
            target_yaw: w.yaw,
            odom_fix: (0, 0),
            stucks: 0,
            checked_at: 0,
            checked: (0, 0),
            kicked: false,
            retries: 0,
            blocked_since: None,
            look: None,
            go: None,
            exiting: false,
            deep_sides: 0,
            forgot_at: None,
        }
    }

    /// The plan carried out: with one deep side we may be outside, so every side is looked at
    /// before moving, and open country is recognised rather than wandered into.
    pub open spec fn cautious_plan(self) -> Plan {
        match (self.map.planned(), self.map.unlooked()) {
            (Plan::Go(go), Some(d)) => if self.deep_sides >= 1 {
                Plan::Look(d)
            } else {
                Plan::Go(go)
            },
            (plan, _) => plan,
        }
    }

    /// Carry a plan out. The head does not turn far enough to look behind: the duck does.
    pub open spec fn planned(self, w: World) -> Leg {
        match self.cautious_plan() {
            Plan::Look(d) => Leg {
                quest: if d == turned(self.map.facing, 2) {
                    Quest { go: None, target_yaw: axis_yaw(d) as i64, ..self }.enter(
                        w,
                        Phase::Turning,
                    )
                } else {
                    Quest { look: Some(d), ..self }.enter(w, Phase::Glancing)
                },
                intents: Intents::idle(),
                done: false,
            },
            Plan::Go(d) => self.sent_off(w, d),
            Plan::Exit(d) => self.sent_off(w, d),
            Plan::Stuck => {
                let stucks = if self.stucks > 3 {
                    self.stucks
                } else {
                    (self.stucks + 1) as u32
                };
                Leg {
                    quest: Quest {
                        stucks,
                        map: if stucks > 3 {
                            self.map
                        } else if stucks == 1 {
                            self.map.forgot_here()
                        } else {
                            self.map.forgot_walls()
                        },
                        ..self
                    },
                    intents: Intents::idle(),
                    done: stucks > 3,
                }
            },
        }
    }

    /// Turn towards a neighbouring cell, to walk there.
    pub open spec fn sent_off(self, w: World, d: Dir) -> Leg {
        Leg {
            quest: Quest {
                go: Some(d),
                exiting: self.map.planned() is Exit,
                target_yaw: axis_yaw(d) as i64,
                deep_sides: 0,
                ..self
            }.enter(w, Phase::Turning),
            intents: Intents::idle(),
            done: false,
        }
    }

    /// The duck is going in circles, and has not forgotten the walls since it came here.
    pub open spec fn circles(self) -> bool {
        &&& self.map.cell(self.map.at).visits > 4
        &&& self.stucks < 3
        &&& self.forgot_at != Some(self.map.moves as u32)
    }

    /// Planning. Glances are measured off the body: the duck squares up to the cell's axis
    /// first, or every look is off by however crooked the last move left it. Back in the same
    /// cell for the fifth time, the map is lying somewhere, and its walls are forgotten, once
    /// for every time the cell is entered.
    pub open spec fn planning(self, w: World) -> Leg {
        let q = Quest { map: localised(self.map, self.pos(w), w.yaw as int), ..self };
        if magnitude(wrapped(axis_yaw(q.map.facing) - w.yaw)) > 150_000_000 {
            Leg {
                quest: Quest {
                    target_yaw: axis_yaw(q.map.facing) as i64,
                    go: None,
                    ..q
                }.enter(w, Phase::Turning),
                intents: Intents::idle(),
                done: false,
            }
        } else {
            let r = if q.circles() {
                Quest {
                    stucks: (q.stucks + 1) as u32,
                    map: q.map.forgot_walls(),
                    forgot_at: Some(q.map.moves as u32),
                    ..q
                }
            } else {
                q
            };
            if r.deep_sides >= 2 && r.map.moves >= 3 {
                Leg {
                    quest: r,
                    intents: Intents { sound: Some(SoundTag::Wheee), ..Intents::idle() },
                    done: true,
                }
            } else {
                r.planned(w)
            }
        }
    }

    /// What a glance settles, once the head has settled: a fresh reading is judged; without
    /// one for two seconds more, the side is taken for a wall.
    pub open spec fn verdict(self, w: World, d: Dir) -> Option<Side> {
        let age = w.t - self.phase_since;
        let bin = glance_bin(self.map, d);
        let edge = self.edge(w, d);
        if age < SETTLE_S {
            None
        } else if w.radar.is_fresh(bin, w.t as int) {
            Some(judged(reading(w, bin).0, reading(w, bin).1, edge))
        } else if age > SETTLE_S + 2_000_000_000 {
            Some(Side::Wall)
        } else {
            None
        }
    }

    /// How far this cell's edge is from where the duck actually stands.
    pub open spec fn edge(self, w: World, d: Dir) -> int {
        let e = edge_range(self.map, d, self.pos(w));
        if e < 50_000_000 {
            50_000_000
        } else {
            e
        }
    }

    /// The odometry correction after a verdict. A wall of this cell is a ruler: the drift
    /// along that axis is however far the wall is from where the edge should be.
    pub open spec fn ruled(self, w: World, d: Dir, side: Side) -> (i64, i64) {
        let bin = glance_bin(self.map, d);
        let near = reading(w, bin).1;
        if side is Wall && w.radar.is_fresh(bin, w.t as int) && (near matches Some(r) && r
            < 900_000_000) {
            let delta = held(near->0 - self.edge(w, d), -250_000_000, 250_000_000);
            match d {
                Dir::East => (fitted(self.odom_fix.0 - delta) as i64, self.odom_fix.1),
                Dir::West => (fitted(self.odom_fix.0 + delta) as i64, self.odom_fix.1),
                Dir::North => (self.odom_fix.0, fitted(self.odom_fix.1 - delta) as i64),
                Dir::South => (self.odom_fix.0, fitted(self.odom_fix.1 + delta) as i64),
            }
        } else {
            self.odom_fix
        }
    }

    pub open spec fn looking(self) -> Dir {
        match self.look {
            Some(d) => d,
            None => self.map.facing,
        }
    }

    pub open spec fn going(self) -> Dir {
        match self.go {
            Some(d) => d,
            None => self.map.facing,
        }
    }

    /// Glancing: the head turned to the side, until there is a verdict.
    pub open spec fn glancing(self, w: World) -> Leg {
        let d = self.looking();
        let yaw = if d == turned(self.map.facing, 1) {
            GLANCE as int
        } else if d == turned(self.map.facing, 3) {
            -GLANCE
        } else {
            0
        };
        let bin = glance_bin(self.map, d);
        let deep = w.radar.is_fresh(bin, w.t as int) && reading(w, bin).0 > OUT_M;
        Leg {
            quest: match self.verdict(w, d) {
                None => self,
                Some(side) => Quest {
                    deep_sides: if deep && self.deep_sides < 2 {
                        (self.deep_sides + 1) as u32
                    } else {
                        self.deep_sides
                    },
                    odom_fix: self.ruled(w, d, side),
                    map: self.map.noted(d, side),
                    ..self
                }.enter(w, Phase::Planning),
            },
            intents: Intents { head: Some(level_head(0, 50_000_000, yaw, 0)), ..Intents::idle() },
            done: false,
        }
    }

    /// Turning. Left: in place, at the one yaw rate the gait honours. Right: a tight walking
    /// arc, since a yaw command at the edge of the range turns left instead. Back: left.
    pub open spec fn turning(self, w: World, limits: Limits) -> Leg {
        let err = wrapped(self.target_yaw - w.yaw);
        let there = magnitude(err) < 120_000_000 || w.t - self.phase_since > 14_000_000_000;
        Leg {
            quest: if !there {
                self
            } else if self.go is Some {
                self.enter(w, Phase::Walking)
            } else {
                // Squaring up (no move planned) goes back to planning.
                self.enter(w, Phase::Planning)
            },
            intents: Intents {
                twist: if there {
                    [0, 0, 0]
                } else if -2_600_000_000 <= err <= 0 {
                    [limits.linear, 0, (-RIGHT_ARC_RATE) as i64]
                } else {
                    [0, 0, TURN_RATE]
                },
                head: Some(level_head(0, 100_000_000, 0, 0)),
                ..Intents::idle()
            },
            done: false,
        }
    }

    /// How much room there is ahead. A wall across the way reads short on every beam; a side
    /// wall grazed at an angle reads short on one and deep on the rest, and does not count.
    pub open spec fn room_ahead(w: World) -> i64 {
        if w.radar.is_fresh(3, w.t as int) && w.radar.far@[3] < 700_000_000 {
            match w.radar.axis@[3] {
                Some(r) => r,
                None => NOTHING,
            }
        } else {
            NOTHING
        }
    }

    /// Since when the way ahead has been blocked: the level beam straight ahead under 0.3 m.
    pub open spec fn blocked_from(self, w: World) -> Option<i64> {
        if Quest::room_ahead(w) < 300_000_000 {
            match self.blocked_since {
                Some(t) => Some(t),
                None => Some(w.t),
            }
        } else {
            None
        }
    }

    pub open spec fn is_blocked(self, w: World) -> bool {
        self.blocked_from(w) matches Some(t) && w.t - t >= 300_000_000
    }

    /// The walk is over: at the next cell's centre (this cell's edge plus half a cell, so that
    /// every move re-centres the duck), blocked, or out of time.
    pub open spec fn arrived(self, w: World) -> bool {
        ||| edge_range(self.map, self.going(), self.pos(w)) + CELL_M / 2 <= 60_000_000
        ||| self.is_blocked(w)
        ||| w.t - self.phase_since > 12_000_000_000
    }

    /// The check on the gait: when it was, where the duck was, and whether it was kicked. It
    /// starts anew with the walk. The gait sometimes does not start from a still stand; where
    /// the odometry has not moved in 2.5 s, a yaw nudge starts it.
    pub open spec fn checked_gait(self, w: World) -> Quest {
        let pos = (self.pos(w).0 as i64, self.pos(w).1 as i64);
        let q = if w.t - self.phase_since < 100_000_000 {
            Quest { checked_at: w.t, checked: pos, kicked: false, ..self }
        } else {
            self
        };
        if w.t - q.checked_at > 2_500_000_000 {
            Quest {
                checked_at: w.t,
                checked: pos,
                kicked: q.kicked || !self.arrived(w) && !reaches(
                    pos.0 - q.checked.0,
                    pos.1 - q.checked.1,
                    50_000_000,
                ),
                ..q
            }
        } else {
            q
        }
    }

    /// How long ago the gait was checked, as the walk starts or goes on.
    pub open spec fn since_check(self, w: World) -> int {
        if w.t - self.phase_since < 100_000_000 {
            0
        } else {
            w.t - self.checked_at
        }
    }

    /// Where the walk landed: in the cell it was for, which counts as a move; or not, and
    /// then what looked open was not if something stood in the way or it keeps failing; or
    /// the gait stalled, and it tries again.
    pub open spec fn landed(self, w: World) -> Quest {
        let d = self.going();
        let from = self.map.at;
        let here = localised(self.map, self.pos(w), w.yaw as int);
        let still = Maze { at: from, ..here };
        let q = Quest { go: None, ..self };
        if here.at == beyond(from, d) {
            let moved = Quest { retries: 0, map: still.moved(d, here.at), ..q };
            if self.exiting {
                // Through what looked like the exit: look around before believing it; two
                // deep sides make it open country.
                Quest { exiting: false, deep_sides: 1, ..moved }.enter(w, Phase::Planning)
            } else {
                Quest { deep_sides: 0, ..moved }.enter(w, Phase::Planning)
            }
        } else if self.is_blocked(w) || self.retries >= 2 {
            Quest {
                retries: 0,
                map: Maze { at: here.at, ..still.noted(d, Side::Wall) },
                deep_sides: 0,
                ..q
            }.enter(w, Phase::Planning)
        } else {
            Quest {
                retries: (self.retries + 1) as u32,
                map: here,
                deep_sides: 0,
                ..q
            }.enter(w, Phase::Planning)
        }
    }

    /// The steering of a walk: towards the heading, with a bias back to the corridor's centre
    /// line, so a duck that drifted toward a wall walks back out instead of scraping along it;
    /// or the nudge that starts the gait.
    pub open spec fn steering(self, w: World) -> int {
        let d = self.going();
        let err = wrapped(self.target_yaw - w.yaw);
        let lateral = edge_range(self.map, turned(d, 1), self.pos(w)) - edge_range(
            self.map,
            turned(d, 3),
            self.pos(w),
        );
        let centring = held(lateral / 2, -250_000_000, 250_000_000);
        if self.checked_gait(w).kicked && self.since_check(w) < 600_000_000 {
            600_000_000
        } else {
            held(3 * err / 2 + centring, -600_000_000, 600_000_000)
        }
    }

    /// Walking one cell.
    pub open spec fn walking(self, w: World, limits: Limits) -> Leg {
        let q = Quest { blocked_since: self.blocked_from(w), ..self.checked_gait(w) };
        if self.arrived(w) {
            Leg { quest: q.landed(w), intents: Intents::idle(), done: false }
        } else {
            Leg {
                quest: q,
                intents: Intents {
                    twist: [
                        if Quest::room_ahead(w) < 600_000_000 {
                            slowed(limits.linear) as i64
                        } else {
                            limits.linear
                        },
                        0,
                        self.steering(w) as i64,
                    ],
                    head: Some(level_head(0, 100_000_000, 0, 0)),
                    ..Intents::idle()
                },
                done: false,
            }
        }
    }

    /// One step of the mission.
    pub open spec fn step(self, w: World, limits: Limits) -> Leg {
        match self.phase {
            Phase::Planning => self.planning(w),
            Phase::Glancing => self.glancing(w),
            Phase::Turning => self.turning(w, limits),
            Phase::Walking => self.walking(w, limits),
        }
    }
}

/// Three fifths of a speed, rounded up: slower, but never a standstill.
pub open spec fn slowed(speed: i64) -> int {
    (speed * 3 + 4) / 5
}

/// No cell was visited more often than moves were made, and once.
pub open spec fn spent(m: Maze) -> bool {
    forall|c: (int, int)| #[trigger] m.cell(c).visits <= m.moves + 1
}

proof fn lemma_spent(m: Maze, d: Dir, side: Side, arrived: (int, int))
    requires
        spent(m),
    ensures
        spent(m.noted(d, side)),
        spent(m.forgot_here()),
        spent(m.forgot_walls()),
        m.moves < u32::MAX - 1 ==> spent(m.moved(d, arrived)),
{
    assert forall|c: (int, int)| #[trigger] m.noted(d, side).cell(c).visits <= m.moves + 1 by {
        assert(m.cell(c).visits <= m.moves + 1);
    }
    assert forall|c: (int, int)| #[trigger] m.forgot_here().cell(c).visits <= m.moves + 1 by {
        assert(m.cell(c).visits <= m.moves + 1);
    }
    assert forall|c: (int, int)| #[trigger] m.forgot_walls().cell(c).visits <= m.moves + 1 by {
        assert(m.cell(c).visits <= m.moves + 1);
    }
    if m.moves < u32::MAX - 1 {
        assert forall|c: (int, int)| #[trigger] m.moved(d, arrived).cell(c).visits <= m.moves + 2 by {
            assert(m.cell(c).visits <= m.moves + 1);
        }
    }
}

/// Odometry, corrected.
fn corrected(odom: i64, fix: i64) -> (p: i64)
    ensures
        p == fitted(odom + fix),
{
    fit(odom as i128 + fix as i128)
}

/// From the duck to the edge of its current cell in direction `d`, given odometry.
fn maze_edge(map: &MazeMap, d: Dir, pos: (i64, i64)) -> (e: i128)
    ensures
        e == edge_range(map@, d, (pos.0 as int, pos.1 as int)),
        -0x1_0000_0000_0000_0000 <= e <= 0x1_0000_0000_0000_0000,
{
    let (x, y): (i128, i128) = (pos.0 as i128, pos.1 as i128);
    let (cx, cy): (i128, i128) = (
        map.at.0 as i128 * 800_000_000,
        map.at.1 as i128 * 800_000_000,
    );
    match d {
        Dir::East => cx + 400_000_000 - x,
        Dir::West => x - cx + 400_000_000,
        Dir::North => cy + 400_000_000 - y,
        Dir::South => y - cy + 400_000_000,
    }
}

/// `v` is further than `r` from zero.
fn exceeds(v: i64, r: i64) -> (b: bool)
    requires
        r >= 0,
    ensures
        b == (magnitude(v as int) > r),
{
    v > r || v < -r
}

impl Mission {
    /// The map is one a mission can have made: the visit counts are within the moves.
    pub open spec fn is_sound(self) -> bool {
        spent(self.map@)
    }

    /// The start of a mission: at the entrance, facing in.
    pub fn new(w: &World) -> (m: Mission)
        ensures
            m@ == Quest::start(*w),
            m.is_sound(),
            m.map.moves == 0,
    {
        let m = Mission {
            map: MazeMap::at_entrance(),
            phase: Phase::Planning,
            phase_since: w.t,
            target_yaw: w.yaw,
            odom_fix: (0, 0),
            stucks: 0,
            checked_at: 0,
            checked: (0, 0),
            kicked: false,
            retries: 0,
            blocked_since: None,
            look: None,
            go: None,
            exiting: false,
            deep_sides: 0,
            forgot_at: None,
        };
        proof {
            assert(place(m.map.at) == (0int, 0int));
            assert forall|c: (int, int)| #[trigger] m.map@.cell(c).visits <= 1 by {}
        }
        m
    }

    fn next(&mut self, w: &World, phase: Phase)
        ensures
            final(self)@ == old(self)@.enter(*w, phase),
            final(self).map == old(self).map,
    {
        self.phase = phase;
        self.phase_since = w.t;
    }

    fn plan_ahead(&mut self, w: &World) -> (r: (Intents, bool))
        requires
            old(self).is_sound(),
        ensures
            final(self)@ == old(self)@.planned(*w).quest,
            r.0 == old(self)@.planned(*w).intents,
            r.1 == old(self)@.planned(*w).done,
            final(self).is_sound(),
            final(self).map.moves == old(self).map.moves,
    {
        let plan = self.map.plan();
        let unlooked = self.map.unknown_ahead();
        let cautious = match (plan, unlooked) {
            (Plan::Go(go), Some(d)) => if self.deep_sides >= 1 {
                Plan::Look(d)
            } else {
                Plan::Go(go)
            },
            (plan, _) => plan,
        };
        assert(cautious == self@.cautious_plan());
        let exiting: bool = match plan {
            Plan::Exit(_) => true,
            _ => false,
        };
        proof {
            lemma_spent(self.map@, Dir::East, Side::Wall, (0, 0));
        }
        match cautious {
            Plan::Look(d) => {
                if d == self.map.facing.back() {
                    self.go = None;
                    self.target_yaw = d.yaw();
                    self.next(w, Phase::Turning);
                } else {
                    self.look = Some(d);
                    self.next(w, Phase::Glancing);
                }
                (Intents::default(), false)
            },
            Plan::Go(d) | Plan::Exit(d) => {
                self.go = Some(d);
                self.exiting = exiting;
                self.target_yaw = d.yaw();
                self.deep_sides = 0;
                self.next(w, Phase::Turning);
                (Intents::default(), false)
            },
            Plan::Stuck => {
                if self.stucks <= 3 {
                    self.stucks = self.stucks + 1;
                }
                if self.stucks > 3 {
                    return (Intents::default(), true);
                }
                if self.stucks == 1 {
                    self.map.forget_here();
                } else {
                    self.map.forget_walls();
                }
                (Intents::default(), false)
            },
        }
    }

    fn plan_step(&mut self, w: &World, pos: (i64, i64)) -> (r: (Intents, bool))
        requires
            old(self).is_sound(),
            (pos.0 as int, pos.1 as int) == old(self)@.pos(*w),
        ensures
            final(self)@ == old(self)@.planning(*w).quest,
            r.0 == old(self)@.planning(*w).intents,
            r.1 == old(self)@.planning(*w).done,
            final(self).is_sound(),
            final(self).map.moves == old(self).map.moves,
    {
        self.map.localise(pos.0, pos.1, w.yaw);
        proof {
            assert(self.map@ == localised(old(self).map@, old(self)@.pos(*w), w.yaw as int));
            assert forall|c: (int, int)| #[trigger] self.map@.cell(c).visits <= self.map@.moves + 1 by {
                assert(old(self).map@.cell(c).visits <= old(self).map@.moves + 1);
            }
        }
        let axis: i64 = self.map.facing.yaw();
        if exceeds(wrap_wide(axis as i128 - w.yaw as i128), 150_000_000) {
            self.target_yaw = axis;
            self.go = None;
            self.next(w, Phase::Turning);
            return (Intents::default(), false);
        }
        let forgotten: bool = match self.forgot_at {
            Some(n) => n == self.map.moves,
            None => false,
        };
        if self.map.cell(self.map.at).visits > 4 && self.stucks < 3 && !forgotten {
            proof {
                lemma_spent(self.map@, Dir::East, Side::Wall, (0, 0));
            }
            self.stucks = self.stucks + 1;
            self.forgot_at = Some(self.map.moves);
            self.map.forget_walls();
        }
        if self.deep_sides >= 2 && self.map.moves >= 3 {
            let mut i = Intents::default();
            i.sound = Some(SoundTag::Wheee);
            return (i, true);
        }
        self.plan_ahead(w)
    }
}

impl Mission {
    /// Shift the odometry correction along the axis of `d`.
    fn shift_fix(&mut self, d: Dir, delta: i64)
        requires
            -250_000_000 <= delta <= 250_000_000,
        ensures
            final(self)@ == (Quest {
                odom_fix: match d {
                    Dir::East => (
                        fitted(old(self).odom_fix.0 - delta) as i64,
                        old(self).odom_fix.1,
                    ),
                    Dir::West => (
                        fitted(old(self).odom_fix.0 + delta) as i64,
                        old(self).odom_fix.1,
                    ),
                    Dir::North => (
                        old(self).odom_fix.0,
                        fitted(old(self).odom_fix.1 - delta) as i64,
                    ),
                    Dir::South => (
                        old(self).odom_fix.0,
                        fitted(old(self).odom_fix.1 + delta) as i64,
                    ),
                },
                ..old(self)@
            }),
            final(self).map == old(self).map,
    {
        match d {
            Dir::East => {
                self.odom_fix.0 = fit(self.odom_fix.0 as i128 - delta as i128);
            },
            Dir::West => {
                self.odom_fix.0 = fit(self.odom_fix.0 as i128 + delta as i128);
            },
            Dir::North => {
                self.odom_fix.1 = fit(self.odom_fix.1 as i128 - delta as i128);
            },
            Dir::South => {
                self.odom_fix.1 = fit(self.odom_fix.1 as i128 + delta as i128);
            },
        }
    }

    /// How far this cell's edge is from where the duck stands, at least a little.
    fn edge_at(&self, w: &World, d: Dir, pos: (i64, i64)) -> (e: i128)
        requires
            (pos.0 as int, pos.1 as int) == self@.pos(*w),
        ensures
            e == self@.edge(*w, d),
            50_000_000 <= e <= 0x1_0000_0000_0000_0000,
    {
        let raw: i128 = maze_edge(&self.map, d, pos);
        if raw < 50_000_000 {
            50_000_000
        } else {
            raw
        }
    }

    fn bin_for(&self, d: Dir) -> (b: usize)
        ensures
            b == glance_bin(self@.map, d),
            b < 7,
    {
        if d == self.map.facing.left() {
            Radar::LEFT
        } else if d == self.map.facing.right() {
            Radar::RIGHT
        } else {
            Radar::AHEAD
        }
    }

    fn read_side(&self, w: &World, d: Dir, edge: i128) -> (r: Option<Side>)
        requires
            edge == self@.edge(*w, d),
            50_000_000 <= edge <= 0x1_0000_0000_0000_0000,
        ensures
            r == self@.verdict(*w, d),
    {
        let age: i128 = w.t as i128 - self.phase_since as i128;
        let bin: usize = self.bin_for(d);
        if age < SETTLE_S as i128 {
            return None;
        }
        if w.radar.fresh(bin, w.t) {
            let far: i64 = w.radar.far[bin];
            let deep: i64 = if far > 0 {
                far
            } else {
                0
            };
            // Range straight along the glance, not the bin's grazing edges: an off-centre
            // duck's side wall otherwise reads as a wall in every direction.
            let near: Option<i64> = w.radar.axis[bin];
            let past_edge: bool = match near {
                Some(n) => n as i128 > edge + 300_000_000,
                None => true,
            };
            if near.is_none() && deep >= TOF_REACH_M - 10_000_000 {
                Some(Side::Outside)
            } else if past_edge && deep as i128 > edge + 450_000_000 {
                Some(Side::Open)
            } else {
                Some(Side::Wall)
            }
        } else if age > SETTLE_S as i128 + 2_000_000_000 {
            // No frame: assume a wall.
            Some(Side::Wall)
        } else {
            None
        }
    }

    /// Whether a glance shows open country.
    fn sees_deep(&self, w: &World, d: Dir) -> (r: bool)
        ensures
            r == ({
                let bin = glance_bin(self@.map, d);
                w.radar.is_fresh(bin, w.t as int) && reading(*w, bin).0 > OUT_M
            }),
    {
        let bin: usize = self.bin_for(d);
        w.radar.fresh(bin, w.t) && w.radar.far[bin] > OUT_M
    }

    fn measure(&mut self, w: &World, d: Dir, side: Side, edge: i128)
        requires
            edge == old(self)@.edge(*w, d),
            50_000_000 <= edge <= 0x1_0000_0000_0000_0000,
        ensures
            final(self)@ == (Quest { odom_fix: old(self)@.ruled(*w, d, side), ..old(self)@ }),
            final(self).map == old(self).map,
    {
        let bin: usize = self.bin_for(d);
        if let Some(r) = w.radar.axis[bin] {
            if side == Side::Wall && w.radar.fresh(bin, w.t) && r < 900_000_000 {
                self.shift_fix(d, hold(r as i128 - edge, -250_000_000, 250_000_000));
            }
        }
    }

    fn glance_step(&mut self, w: &World, pos: (i64, i64)) -> (i: Intents)
        requires
            old(self).is_sound(),
            (pos.0 as int, pos.1 as int) == old(self)@.pos(*w),
        ensures
            final(self)@ == old(self)@.glancing(*w).quest,
            i == old(self)@.glancing(*w).intents,
            !old(self)@.glancing(*w).done,
            final(self).is_sound(),
            final(self).map.moves == old(self).map.moves,
    {
        let d = match self.look {
            Some(d) => d,
            None => self.map.facing,
        };
        let yaw: i64 = if d == self.map.facing.left() {
            GLANCE
        } else if d == self.map.facing.right() {
            -GLANCE
        } else {
            0
        };
        let mut i = Intents::default();
        i.head = Some(head_at(0, 50_000_000, yaw, 0));
        let edge: i128 = self.edge_at(w, d, pos);
        match self.read_side(w, d, edge) {
            None => {},
            Some(side) => {
                let deep: bool = self.sees_deep(w, d);
                self.measure(w, d, side, edge);
                if deep && self.deep_sides < 2 {
                    self.deep_sides = self.deep_sides + 1;
                }
                proof {
                    lemma_spent(self.map@, d, side, (0, 0));
                }
                self.map.note(d, side);
                self.next(w, Phase::Planning);
            },
        }
        i
    }

    fn turn_step(&mut self, w: &World, limits: Limits) -> (i: Intents)
        requires
            old(self).is_sound(),
        ensures
            final(self)@ == old(self)@.turning(*w, limits).quest,
            i == old(self)@.turning(*w, limits).intents,
            !old(self)@.turning(*w, limits).done,
            final(self).is_sound(),
            final(self).map.moves == old(self).map.moves,
    {
        let age: i128 = w.t as i128 - self.phase_since as i128;
        let err: i64 = wrap_wide(self.target_yaw as i128 - w.yaw as i128);
        let mut i = Intents::default();
        i.head = Some(head_at(0, 100_000_000, 0, 0));
        if !(err >= 120_000_000 || err <= -120_000_000) || age > 14_000_000_000 {
            let phase = if self.go.is_some() {
                Phase::Walking
            } else {
                Phase::Planning
            };
            self.next(w, phase);
        } else if err >= -2_600_000_000 && err <= 0 {
            i.twist = [limits.linear, 0, -RIGHT_ARC_RATE];
        } else {
            i.twist = [0, 0, TURN_RATE];
        }
        i
    }
}

fn open_room(w: &World) -> (r: i64)
    ensures
        r == Quest::room_ahead(*w),
{
    if w.radar.fresh(Radar::AHEAD, w.t) && w.radar.far[Radar::AHEAD] < 700_000_000 {
        match w.radar.axis[Radar::AHEAD] {
            Some(r) => r,
            None => NOTHING,
        }
    } else {
        NOTHING
    }
}

impl Mission {
    fn check_gait(&mut self, w: &World, pos: (i64, i64), arrived: bool)
        requires
            (pos.0 as int, pos.1 as int) == old(self)@.pos(*w),
            arrived == old(self)@.arrived(*w),
        ensures
            final(self)@ == old(self)@.checked_gait(*w),
            final(self).map == old(self).map,
    {
        let age: i128 = w.t as i128 - self.phase_since as i128;
        if age < 100_000_000 {
            self.checked_at = w.t;
            self.checked = pos;
            self.kicked = false;
        }
        let since: i128 = w.t as i128 - self.checked_at as i128;
        if since > 2_500_000_000 {
            let dx: i128 = pos.0 as i128 - self.checked.0 as i128;
            let dy: i128 = pos.1 as i128 - self.checked.1 as i128;
            if !arrived && !is_long(dx, dy, 50_000_000) {
                self.kicked = true;
            }
            self.checked_at = w.t;
            self.checked = pos;
        }
    }

    fn land(&mut self, w: &World, pos: (i64, i64), blocked: bool)
        requires
            old(self).is_sound(),
            old(self).map.moves < u32::MAX - 1,
            (pos.0 as int, pos.1 as int) == old(self)@.pos(*w),
            blocked == old(self)@.is_blocked(*w),
        ensures
            final(self)@ == old(self)@.landed(*w),
            final(self).is_sound(),
            final(self).map.moves <= old(self).map.moves + 1,
    {
        let ghost q = self@;
        let d = match self.go {
            Some(d) => d,
            None => self.map.facing,
        };
        self.go = None;
        let from = self.map.at;
        self.map.localise(pos.0, pos.1, w.yaw);
        let landed = self.map.at;
        self.map.at = from;
        let ghost here = localised(q.map, q.pos(*w), w.yaw as int);
        let ghost still = Maze { at: q.map.at, ..here };
        proof {
            assert(self.map@ == still);
            assert(place(landed) == here.at);
            assert forall|c: (int, int)| #[trigger] still.cell(c).visits <= still.moves + 1 by {
                assert(q.map.cell(c).visits <= q.map.moves + 1);
            }
            lemma_spent(still, d, Side::Wall, here.at);
            assert(still.cell(here.at).visits <= still.moves + 1);
        }
        let (x, y) = (landed.0 as i64 - from.0 as i64, landed.1 as i64 - from.1 as i64);
        let there = match d {
            Dir::East => x == 1 && y == 0,
            Dir::North => x == 0 && y == 1,
            Dir::West => x == -1 && y == 0,
            Dir::South => x == 0 && y == -1,
        };
        if there {
            self.retries = 0;
            self.map.moved(d, landed);
            if self.exiting {
                // Through what looked like the exit: look around before believing it.
                self.exiting = false;
                self.deep_sides = 1;
            } else {
                self.deep_sides = 0;
            }
        } else if blocked || self.retries >= 2 {
            // Did not get there and something stood in the way (or it keeps failing): what
            // looked open was not.
            self.map.note(d, Side::Wall);
            proof {
                let seen = still.noted(d, Side::Wall);
                assert forall|c: (int, int)| #[trigger] Maze { at: here.at, ..seen }.cell(c).visits
                    <= seen.moves + 1 by {
                    assert(seen.cell(c).visits <= seen.moves + 1);
                }
            }
            self.map.at = landed;
            self.retries = 0;
            self.deep_sides = 0;
        } else {
            // Ran out of time without a wall in the way: the gait stalled. Try again.
            self.retries = self.retries + 1;
            proof {
                assert forall|c: (int, int)| #[trigger] here.cell(c).visits <= here.moves + 1 by {
                    assert(still.cell(c).visits <= still.moves + 1);
                }
            }
            self.map.at = landed;
            self.deep_sides = 0;
        }
        self.next(w, Phase::Planning);
    }

    fn steer(&self, w: &World, pos: (i64, i64), nudge: bool) -> (s: i64)
        requires
            (pos.0 as int, pos.1 as int) == self@.pos(*w),
            nudge == (self@.checked_gait(*w).kicked && self@.since_check(*w) < 600_000_000),
        ensures
            s == self@.steering(*w),
            -600_000_000 <= s <= 600_000_000,
    {
        if nudge {
            return 600_000_000;
        }
        let d = match self.go {
            Some(d) => d,
            None => self.map.facing,
        };
        let err: i64 = wrap_wide(self.target_yaw as i128 - w.yaw as i128);
        let lateral: i128 = maze_edge(&self.map, d.left(), pos) - maze_edge(
            &self.map,
            d.right(),
            pos,
        );
        let centring: i64 = hold(floor_div(lateral, 2), -250_000_000, 250_000_000);
        hold(floor_div(3 * err as i128, 2) + centring as i128, -600_000_000, 600_000_000)
    }

    fn walk_step(&mut self, w: &World, limits: Limits, pos: (i64, i64)) -> (i: Intents)
        requires
            old(self).is_sound(),
            old(self).map.moves < u32::MAX - 1,
            (pos.0 as int, pos.1 as int) == old(self)@.pos(*w),
        ensures
            final(self)@ == old(self)@.walking(*w, limits).quest,
            i == old(self)@.walking(*w, limits).intents,
            !old(self)@.walking(*w, limits).done,
            final(self).is_sound(),
            final(self).map.moves <= old(self).map.moves + 1,
    {
        let ghost q = self@;
        let age: i128 = w.t as i128 - self.phase_since as i128;
        let since: i128 = if age < 100_000_000 {
            0
        } else {
            w.t as i128 - self.checked_at as i128
        };
        let d = match self.go {
            Some(d) => d,
            None => self.map.facing,
        };
        let remaining: i128 = maze_edge(&self.map, d, pos) + 400_000_000;
        let room: i64 = open_room(w);
        let blocked_since: Option<i64> = if room < 300_000_000 {
            match self.blocked_since {
                Some(t) => Some(t),
                None => Some(w.t),
            }
        } else {
            None
        };
        let blocked: bool = match blocked_since {
            Some(t) => w.t as i128 - t as i128 >= 300_000_000,
            None => false,
        };
        let arrived: bool = remaining <= 60_000_000 || blocked || age > 12_000_000_000;
        assert(arrived == q.arrived(*w));
        let mut i = Intents::default();
        if arrived {
            self.check_gait(w, pos, arrived);
            self.blocked_since = blocked_since;
            assert(self@ == (Quest { blocked_since: q.blocked_from(*w), ..q.checked_gait(*w) }));
            self.land(w, pos, blocked);
        } else {
            let kicked: bool = self.kicks(w, pos);
            let steer: i64 = self.steer(w, pos, kicked && since < 600_000_000);
            self.check_gait(w, pos, arrived);
            self.blocked_since = blocked_since;
            let speed: i64 = if room < 600_000_000 {
                floor_div(limits.linear as i128 * 3 + 4, 5) as i64
            } else {
                limits.linear
            };
            i.twist = [speed, 0, steer];
            i.head = Some(head_at(0, 100_000_000, 0, 0));
        }
        i
    }

    /// Whether the gait has had its kick by now, in a walk that goes on.
    fn kicks(&self, w: &World, pos: (i64, i64)) -> (k: bool)
        requires
            (pos.0 as int, pos.1 as int) == self@.pos(*w),
            !self@.arrived(*w),
        ensures
            k == self@.checked_gait(*w).kicked,
    {
        let age: i128 = w.t as i128 - self.phase_since as i128;
        if age < 100_000_000 {
            return false;
        }
        let since: i128 = w.t as i128 - self.checked_at as i128;
        let dx: i128 = pos.0 as i128 - self.checked.0 as i128;
        let dy: i128 = pos.1 as i128 - self.checked.1 as i128;
        self.kicked || (since > 2_500_000_000 && !is_long(dx, dy, 50_000_000))
    }

    /// One step of the mission: the intents, and whether it is over.
    pub fn step(&mut self, w: &World, limits: Limits) -> (r: (Intents, bool))
        requires
            old(self).is_sound(),
            old(self).map.moves < u32::MAX - 1,
        ensures
            final(self)@ == old(self)@.step(*w, limits).quest,
            r.0 == old(self)@.step(*w, limits).intents,
            r.1 == old(self)@.step(*w, limits).done,
            final(self).is_sound(),
            final(self).map.moves <= old(self).map.moves + 1,
    {
        let pos = (corrected(w.odom[0], self.odom_fix.0), corrected(w.odom[1], self.odom_fix.1));
        match self.phase {
            Phase::Planning => self.plan_step(w, pos),
            Phase::Glancing => (self.glance_step(w, pos), false),
            Phase::Turning => (self.turn_step(w, limits), false),
            Phase::Walking => (self.walk_step(w, limits, pos), false),
        }
    }
}

} // verus!
